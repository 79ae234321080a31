use r34_hooks::hooks::{Command, Discord, HookImpl, Local};
use r34_hooks::models::Post;

fn post(id: u64, file_url: &str) -> Post {
    Post {
        height: 0,
        score: 0,
        file_url: file_url.to_string(),
        parent_id: String::new(),
        sample_url: String::new(),
        sample_width: 0,
        sample_height: 0,
        preview_url: String::new(),
        rating: String::new(),
        tags_concat: String::new(),
        id,
        width: 0,
        change: 0,
        md5: String::new(),
        creator_id: 0,
        has_children: false,
        created_at: String::new(),
        source: String::new(),
        has_notes: false,
        has_comments: false,
        preview_width: 0,
        preview_height: 0,
    }
}

#[test]
fn discord_posts_file_url() {
    let d = Discord::new("https://discord.com/api/webhooks/1/x");
    assert_eq!(d.webhook_url(), "https://discord.com/api/webhooks/1/x");
    let p = post(1, "https://api-cdn.rule34.xxx/images/1/a.png");
    assert_eq!(d.message(&p), "https://api-cdn.rule34.xxx/images/1/a.png");
}

#[test]
fn local_file_names() {
    let l = Local::new("out".to_string(), true);
    assert_eq!(l.directory(), "out");
    assert!(l.store_metadata());
    let p = post(1, "https://api-cdn.rule34.xxx/images/6811/aa5d.png");
    assert_eq!(l.file_name(&p), "aa5d.png");
    assert_eq!(l.meta_file_name(&p), "aa5d.png.meta.json");
    let q = post(2, "plainname");
    assert_eq!(l.file_name(&q), "plainname");
    assert_eq!(l.meta_file_name(&q), "plainname.meta.json");
}

#[test]
fn command_description() {
    let c = Command {
        run: "notify".to_string(),
        args: Some(vec!["-v".to_string(), "a b".to_string()]),
        env: None,
        once_per_post: false,
    };
    assert_eq!(c.describe(), "notify \"-v\" \"a b\"");
    let bare = Command { run: "x".to_string(), args: None, env: None, once_per_post: true };
    assert_eq!(bare.describe(), "x");
    let no_args = Command { run: "x".to_string(), args: Some(vec![]), env: None, once_per_post: true };
    assert_eq!(no_args.describe(), "x");
}

#[test]
fn command_runs() {
    let each = Command { run: "x".to_string(), args: None, env: None, once_per_post: true };
    assert_eq!(each.batches(3), vec![(0, 1), (1, 2), (2, 3)]);
    assert!(each.batches(0).is_empty());
    let all = Command { run: "x".to_string(), args: None, env: None, once_per_post: false };
    assert_eq!(all.batches(3), vec![(0, 3)]);
    assert_eq!(all.batches(0), vec![(0, 0)]);
}

#[test]
fn hook_clone_keeps_target() {
    let h = HookImpl::Local(Local::new("dir".to_string(), false));
    match h.clone() {
        HookImpl::Local(l) => {
            assert_eq!(l.directory(), "dir");
            assert!(!l.store_metadata());
        }
        HookImpl::Discord(_) => panic!("wrong kind"),
    }
}
