use r34_hooks::models::{Post, Posts};

fn post(id: u64, file_url: &str, tags: &str) -> Post {
    Post {
        height: 1,
        score: 2,
        file_url: file_url.to_string(),
        parent_id: String::new(),
        sample_url: String::new(),
        sample_width: 3,
        sample_height: 4,
        preview_url: String::new(),
        rating: "e".to_string(),
        tags_concat: tags.to_string(),
        id,
        width: 5,
        change: 6,
        md5: String::new(),
        creator_id: 7,
        has_children: false,
        created_at: String::new(),
        source: String::new(),
        has_notes: false,
        has_comments: true,
        preview_width: 8,
        preview_height: 9,
    }
}

#[test]
fn tags_of_listed_post() {
    let p = post(
        7775085,
        "https://api-cdn.rule34.xxx/images/6811/aa5d4c4640b1dee8f59bb9245f598a4c.png",
        " anal anal_sex big_ass kindred lamb_(league_of_legends) league_of_legends tail wide_hips ",
    );
    assert_eq!(
        p.tags(),
        vec!["anal", "anal_sex", "big_ass", "kindred", "lamb_(league_of_legends)", "league_of_legends", "tail", "wide_hips"]
    );
}

#[test]
fn tags_skip_blank_runs() {
    let p = post(1, "u", "  a   b\tc  ");
    assert_eq!(p.tags(), vec!["a", "b\tc"]);
    assert!(post(1, "u", "   ").tags().is_empty());
    assert!(post(1, "u", "").tags().is_empty());
}

#[test]
fn tags_are_words() {
    let p = post(1, "u", " \u{3000}x  y \u{a0}z\u{a0} ");
    for t in p.tags() {
        assert!(!t.is_empty());
        assert!(!t.contains(' '));
        assert_eq!(t.trim(), t);
    }
}

#[test]
fn first_post_of_listing() {
    let posts = Posts { count: 2, offset: 0, posts: vec![post(3, "a", ""), post(2, "b", "")] };
    assert_eq!(posts.first().map(|p| p.id), Some(3));
    let empty = Posts { count: 0, offset: 0, posts: vec![] };
    assert!(empty.first().is_none());
}

#[test]
fn clone_keeps_every_field() {
    let p = post(42, "https://x/y.jpg", "a b");
    let c = p.clone();
    assert_eq!(c.id, 42);
    assert_eq!(c.file_url, p.file_url);
    assert_eq!(c.tags_concat, p.tags_concat);
    assert_eq!(c.has_comments, p.has_comments);
    assert_eq!(c.preview_height, p.preview_height);
}

#[test]
fn joined_tags_give_same_tags() {
    for text in [" a  b\tc  ", "", "   ", " \u{3000}x  y \u{a0}z\u{a0} ", "kindred lamb_(league_of_legends)"] {
        let p = post(1, "u", text);
        let tags: Vec<String> = p.tags().iter().map(|t| t.to_string()).collect();
        let q = post(2, "u", &tags.join(" "));
        assert_eq!(q.tags(), p.tags(), "text {text:?}");
    }
}

#[test]
fn space_only_tags_are_split_whitespace() {
    for text in [" anal  big_ass kindred ", "", "   ", "one"] {
        let p = post(1, "u", text);
        let words: Vec<&str> = text.split_whitespace().collect();
        assert_eq!(p.tags(), words, "text {text:?}");
    }
}
