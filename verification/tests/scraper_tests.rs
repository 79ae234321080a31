use r34_hooks::models::{Post, Posts};
use r34_hooks::scraper::Scraper;
use r34_hooks::search::{Reply, Request};
use r34_hooks::watch::WatchMap;

fn post(id: u64) -> Post {
    Post {
        height: 0,
        score: 0,
        file_url: format!("https://cdn/{id}.png"),
        parent_id: String::new(),
        sample_url: String::new(),
        sample_width: 0,
        sample_height: 0,
        preview_url: String::new(),
        rating: String::new(),
        tags_concat: String::new(),
        id,
        width: 0,
        change: 0,
        md5: String::new(),
        creator_id: 0,
        has_children: false,
        created_at: String::new(),
        source: String::new(),
        has_notes: false,
        has_comments: false,
        preview_width: 0,
        preview_height: 0,
    }
}

/// A fake site: all posts, newest first, found by any tags.
struct Site {
    ids: Vec<u64>,
}

impl Site {
    fn list(&self, page: u64, limit: u64) -> Posts {
        let start = (page * limit) as usize;
        let posts: Vec<Post> = self.ids.iter().skip(start).take(limit as usize).map(|&i| post(i)).collect();
        Posts { count: self.ids.len() as u64, offset: start as u64, posts }
    }
}

struct Run {
    result: Option<Vec<u64>>,
    stored: Option<i64>,
    pages: Vec<(Vec<String>, u64, u64)>,
    checked: Vec<u64>,
}

fn scraper(limit: usize, default_tags: Option<Vec<String>>) -> Scraper<()> {
    Scraper::new((), WatchMap::new(), limit, default_tags, "u".to_string(), "k".to_string())
}

fn run(sc: &Scraper<()>, site: &Site, last: Option<i64>) -> Run {
    let tags = vec!["kindred".to_string()];
    let (mut search, mut request) = sc.get_new("kindred", &tags);
    assert_eq!(search.uid(), "kindred");
    let mut out = Run { result: None, stored: None, pages: vec![], checked: vec![] };
    loop {
        let reply = match request {
            Request::GetLastId => Reply::LastId(last),
            Request::GetPost { post_id } => {
                out.checked.push(post_id);
                Reply::PostExists(site.ids.contains(&post_id))
            }
            Request::ListPosts { tags, page, limit } => {
                out.pages.push((tags, page, limit));
                Reply::Listed(site.list(page, limit))
            }
            Request::SetLastId { id } => {
                out.stored = Some(id);
                Reply::Stored
            }
            Request::Finish { posts } => {
                out.result = posts.map(|v| v.iter().map(|p| p.id).collect());
                return out;
            }
        };
        assert!(search.can_take(&reply));
        let (s, r) = search.step(reply);
        search = s;
        request = r;
    }
}

#[test]
fn first_run_only_remembers_newest() {
    let site = Site { ids: vec![50, 40, 30] };
    let r = run(&scraper(100, None), &site, None);
    assert_eq!(r.result, None);
    assert_eq!(r.stored, Some(50));
    assert_eq!(r.pages, vec![(vec!["kindred".to_string()], 0, 1)]);
}

#[test]
fn first_run_on_empty_site() {
    let r = run(&scraper(100, None), &Site { ids: vec![] }, None);
    assert_eq!(r.result, None);
    assert_eq!(r.stored, None);
}

#[test]
fn vanished_last_post_resets() {
    let site = Site { ids: vec![50, 40, 30] };
    let r = run(&scraper(100, None), &site, Some(35));
    assert_eq!(r.checked, vec![35]);
    assert_eq!(r.result, None);
    assert_eq!(r.stored, Some(50));
}

#[test]
fn new_posts_oldest_first_over_pages() {
    let ids: Vec<u64> = (1..=25).rev().collect();
    let site = Site { ids };
    let r = run(&scraper(100, Some(vec!["high_res".to_string()])), &site, Some(3));
    assert_eq!(r.result, Some((4..=25).collect()));
    assert_eq!(r.stored, Some(25));
    let search = vec!["kindred".to_string(), "high_res".to_string()];
    assert_eq!(r.pages, vec![(search, 0, 100)]);
}

#[test]
fn short_page_asks_for_the_next() {
    let ids: Vec<u64> = (1..=25).rev().collect();
    let site = Site { ids };
    let sc = scraper(30, None);
    let tags = vec!["kindred".to_string()];
    let (s, _) = sc.get_new("kindred", &tags);
    let (s, _) = s.step(Reply::LastId(Some(3)));
    let (s, r) = s.step(Reply::PostExists(true));
    assert!(matches!(r, Request::ListPosts { page: 0, limit: 30, .. }));
    let mut first = site.list(0, 30);
    first.posts.truncate(5);
    let (s, r) = s.step(Reply::Listed(first));
    assert!(matches!(r, Request::ListPosts { page: 1, limit: 30, .. }));
    let (_, r) = s.step(Reply::Listed(site.list(0, 30)));
    match r {
        Request::SetLastId { id } => assert_eq!(id, 25),
        _ => panic!("expected the newest id to be stored"),
    }
}

#[test]
fn first_run_uses_default_tags() {
    let site = Site { ids: vec![50, 40, 30] };
    let r = run(&scraper(100, Some(vec!["high_res".to_string()])), &site, None);
    assert_eq!(r.stored, Some(50));
    assert_eq!(r.pages, vec![(vec!["kindred".to_string(), "high_res".to_string()], 0, 1)]);
}

#[test]
fn nothing_new() {
    let site = Site { ids: vec![9, 8, 7] };
    let r = run(&scraper(100, None), &site, Some(9));
    assert_eq!(r.result, None);
    assert_eq!(r.stored, None);
}

#[test]
fn limit_stops_paging() {
    let ids: Vec<u64> = (1..=40).rev().collect();
    let site = Site { ids };
    let r = run(&scraper(15, None), &site, Some(1));
    assert_eq!(r.result, Some((26..=40).collect()));
    assert_eq!(r.stored, Some(40));
    assert_eq!(r.pages, vec![(vec!["kindred".to_string()], 0, 15)]);
}

#[test]
fn empty_listing_ends_search() {
    let sc = scraper(100, None);
    let tags = vec!["t".to_string()];
    let (s, _) = sc.get_new("t", &tags);
    let (s, _) = s.step(Reply::LastId(Some(5)));
    let (s, r) = s.step(Reply::PostExists(true));
    assert!(matches!(r, Request::ListPosts { page: 0, limit: 100, .. }));
    let reply = Reply::Listed(Posts { count: 0, offset: 0, posts: vec![] });
    assert!(s.can_take(&reply));
    let (_, r) = s.step(reply);
    assert!(matches!(r, Request::Finish { posts: None }));
}

#[test]
fn wrong_reply_is_refused() {
    let sc = scraper(100, None);
    let (s, _) = sc.get_new("t", &[]);
    assert!(!s.can_take(&Reply::Stored));
    assert!(s.can_take(&Reply::LastId(None)));
}

#[test]
fn scraper_parts() {
    let sc = Scraper::new(7u8, WatchMap::new(), 3, None, "user".to_string(), "key".to_string());
    assert_eq!(*sc.db(), 7);
    assert_eq!(sc.limit(), 3);
    assert_eq!(sc.user_id(), "user");
    assert_eq!(sc.api_key(), "key");
    assert!(sc.watchers().is_empty());
    assert_eq!(sc.search_tags(&["a".to_string()]), vec!["a".to_string()]);
}

