use r34_hooks::client::{Client, QueryValue, API_ROOT};

fn flat(q: Vec<(String, QueryValue)>) -> Vec<(String, String)> {
    q.into_iter()
        .map(|(k, v)| {
            let v = match v {
                QueryValue::Text(t) => t,
                QueryValue::Number(n) => format!("#{n}"),
            };
            (k, v)
        })
        .collect()
}

fn pairs(v: &[(&str, &str)]) -> Vec<(String, String)> {
    v.iter().map(|(a, b)| (a.to_string(), b.to_string())).collect()
}

#[test]
fn api_root() {
    assert_eq!(API_ROOT, "https://api.rule34.xxx/index.php");
}

#[test]
fn list_query() {
    let c = Client::new("123456", "secret");
    let tags = vec!["kindred".to_string(), "high_res".to_string()];
    assert_eq!(
        flat(c.list_posts_query(&tags, Some(2), Some(10))),
        pairs(&[
            ("page", "dapi"),
            ("s", "post"),
            ("q", "index"),
            ("user_id", "123456"),
            ("api_key", "secret"),
            ("tags", "kindred high_res"),
            ("pid", "#2"),
            ("limit", "#10"),
        ])
    );
}

#[test]
fn post_query() {
    let c = Client::new("u", "k");
    assert_eq!(
        flat(c.get_post_query(7775085)),
        pairs(&[("page", "dapi"), ("s", "post"), ("q", "index"), ("user_id", "u"), ("api_key", "k"), ("id", "#7775085")])
    );
}

#[test]
fn bare_query() {
    let c = Client::new("u", "k");
    assert_eq!(flat(c.query(None, None, None, None)).len(), 5);
    assert_eq!(flat(c.query(Some(&[]), None, Some(1), None))[5], ("tags".to_string(), String::new()));
}
