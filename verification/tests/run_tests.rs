use r34_hooks::hooks::{Discord, HookImpl};
use r34_hooks::models::Post;
use r34_hooks::scraper::{RunEvent, RunRequest, Scraper};
use r34_hooks::watch::WatchMap;

fn post(id: u64) -> Post {
    Post {
        height: 0,
        score: 0,
        file_url: String::new(),
        parent_id: String::new(),
        sample_url: String::new(),
        sample_width: 0,
        sample_height: 0,
        preview_url: String::new(),
        rating: String::new(),
        tags_concat: String::new(),
        id,
        width: 0,
        change: 0,
        md5: String::new(),
        creator_id: 0,
        has_children: false,
        created_at: String::new(),
        source: String::new(),
        has_notes: false,
        has_comments: false,
        preview_width: 0,
        preview_height: 0,
    }
}

fn hooks(n: usize) -> Vec<HookImpl> {
    (0..n).map(|i| HookImpl::Discord(Discord::new(&format!("h{i}")))).collect()
}

fn scraper() -> Scraper<()> {
    let mut w = WatchMap::new();
    w.insert("a".to_string(), vec!["a".to_string()], hooks(2));
    w.insert("b".to_string(), vec!["b".to_string()], hooks(0));
    w.insert("c".to_string(), vec!["c".to_string()], hooks(1));
    Scraper::new((), w, 100, None, String::new(), String::new())
}

/// Runs over all watchers; watcher `i` finds posts `[i]` unless it is `b`.
fn trace(sc: &Scraper<()>) -> Vec<String> {
    let (mut run, mut req) = sc.run();
    let mut log = vec![];
    loop {
        let ev = match req {
            RunRequest::Search { watcher } => {
                log.push(format!("search {watcher}"));
                if watcher == 1 {
                    RunEvent::Searched(None)
                } else {
                    RunEvent::Searched(Some(vec![post(watcher as u64), post(100)]))
                }
            }
            RunRequest::Send { watcher, hook } => {
                let ids: Vec<u64> = run.posts().iter().map(|p| p.id).collect();
                log.push(format!("send {watcher}/{hook} {ids:?}"));
                RunEvent::Sent
            }
            RunRequest::Done => return log,
        };
        let (r, q) = run.step(sc, ev);
        run = r;
        req = q;
    }
}

#[test]
fn every_hook_gets_the_posts_in_order() {
    assert_eq!(
        trace(&scraper()),
        vec![
            "search 0",
            "send 0/0 [0, 100]",
            "send 0/1 [0, 100]",
            "search 1",
            "search 2",
            "send 2/0 [2, 100]",
        ]
    );
}

#[test]
fn no_watchers_no_run() {
    let sc = Scraper::new((), WatchMap::new(), 1, None, String::new(), String::new());
    let (run, req) = sc.run();
    assert!(matches!(req, RunRequest::Done));
    assert!(run.posts().is_empty());
}

#[test]
fn watcher_without_hooks_is_passed_over() {
    let mut w = WatchMap::new();
    w.insert("x".to_string(), vec![], hooks(0));
    let sc = Scraper::new((), w, 1, None, String::new(), String::new());
    let (run, req) = sc.run();
    assert!(matches!(req, RunRequest::Search { watcher: 0 }));
    let (_, req) = run.step(&sc, RunEvent::Searched(Some(vec![post(1)])));
    assert!(matches!(req, RunRequest::Done));
}
