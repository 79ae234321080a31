//! The requests that the API client makes: the query of each listing.
use vstd::prelude::*;
use crate::text::{join, join_strings, law_split_join, split_on, string_views};

verus! {

/// The address of the API.
pub const API_ROOT: &'static str = "https://api.rule34.xxx/index.php";

/// The value of one query parameter.
pub enum QueryValue {
    Text(String),
    Number(u64),
}

/// The value of one query parameter, as a value.
pub enum QueryArg {
    Text(Seq<char>),
    Number(u64),
}

impl View for QueryValue {
    type V = QueryArg;

    open spec fn view(&self) -> QueryArg {
        match self {
            QueryValue::Text(t) => QueryArg::Text(t@),
            QueryValue::Number(n) => QueryArg::Number(*n),
        }
    }
}

/// The views of a list of query parameters.
pub open spec fn query_view(q: Seq<(String, QueryValue)>) -> Seq<(Seq<char>, QueryArg)> {
    q.map_values(|p: (String, QueryValue)| (p.0@, p.1@))
}

/// One optional query parameter: present where the value is.
pub open spec fn opt_number(name: Seq<char>, v: Option<u64>) -> Seq<(Seq<char>, QueryArg)> {
    match v {
        Some(n) => seq![(name, QueryArg::Number(n))],
        None => Seq::empty(),
    }
}

/// The query of a request to the API: the fixed parameters that select the
/// post listing, the credentials, then the tags joined by spaces, the page,
/// the limit and the post id, each where it is given.
pub open spec fn query_spec(
    user_id: Seq<char>,
    api_key: Seq<char>,
    tags: Option<Seq<Seq<char>>>,
    page: Option<u64>,
    limit: Option<u64>,
    id: Option<u64>,
) -> Seq<(Seq<char>, QueryArg)> {
    seq![
        ("page"@, QueryArg::Text("dapi"@)),
        ("s"@, QueryArg::Text("post"@)),
        ("q"@, QueryArg::Text("index"@)),
        ("user_id"@, QueryArg::Text(user_id)),
        ("api_key"@, QueryArg::Text(api_key)),
    ] + match tags {
        Some(t) => seq![("tags"@, QueryArg::Text(join(t, " "@)))],
        None => Seq::empty(),
    } + opt_number("pid"@, page) + opt_number("limit"@, limit) + opt_number("id"@, id)
}

/// The `tags` parameter of a query holds every given tag, in order, joined
/// by single spaces: splitting it at spaces gives the tags back, where none
/// of them holds a space.
pub proof fn law_query_tags_are_the_tags(
    user_id: Seq<char>,
    api_key: Seq<char>,
    tags: Seq<Seq<char>>,
    page: Option<u64>,
    limit: Option<u64>,
    id: Option<u64>,
)
    requires
        tags.len() > 0,
        forall|i: int| 0 <= i < tags.len() ==> !(#[trigger] tags[i]).contains(' '),
    ensures
        ({
            let q = query_spec(user_id, api_key, Some(tags), page, limit, id);
            &&& q.len() > 5
            &&& q[5].0 == "tags"@
            &&& q[5].1 matches QueryArg::Text(x) && split_on(x, ' ') == tags
        }),
{
    reveal_strlit(" ");
    assert(" "@ =~= seq![' ']);
    law_split_join(tags, ' ');
}

/// A client of the API with the given credentials.
pub struct Client {
    user_id: String,
    api_key: String,
}

impl Client {
    /// The user id of the client.
    pub closed spec fn user(&self) -> Seq<char> {
        self.user_id@
    }

    /// The API key of the client.
    pub closed spec fn key(&self) -> Seq<char> {
        self.api_key@
    }

    /// A client with the given credentials.
    pub fn new(user_id: &str, api_key: &str) -> (c: Self)
        ensures
            c.user() == user_id@,
            c.key() == api_key@,
    {
        Client { user_id: user_id.to_owned(), api_key: api_key.to_owned() }
    }

    /// The query of a request with the given optional parts.
    pub fn query(
        &self,
        tags: Option<&[String]>,
        page: Option<u64>,
        limit: Option<u64>,
        id: Option<u64>,
    ) -> (q: Vec<(String, QueryValue)>)
        ensures
            query_view(q@) == query_spec(
                self.user(),
                self.key(),
                match tags {
                    Some(t) => Some(string_views(t@)),
                    None => None,
                },
                page,
                limit,
                id,
            ),
    {
        let mut q: Vec<(String, QueryValue)> = Vec::new();
        q.push(("page".to_owned(), QueryValue::Text("dapi".to_owned())));
        q.push(("s".to_owned(), QueryValue::Text("post".to_owned())));
        q.push(("q".to_owned(), QueryValue::Text("index".to_owned())));
        q.push(("user_id".to_owned(), QueryValue::Text(self.user_id.clone())));
        q.push(("api_key".to_owned(), QueryValue::Text(self.api_key.clone())));
        let ghost base = query_view(q@);
        match tags {
            Some(t) => {
                q.push(("tags".to_owned(), QueryValue::Text(join_strings(t, " "))));
            },
            None => {},
        }
        let ghost with_tags = query_view(q@);
        match page {
            Some(p) => {
                q.push(("pid".to_owned(), QueryValue::Number(p)));
            },
            None => {},
        }
        let ghost with_page = query_view(q@);
        match limit {
            Some(l) => {
                q.push(("limit".to_owned(), QueryValue::Number(l)));
            },
            None => {},
        }
        let ghost with_limit = query_view(q@);
        match id {
            Some(i) => {
                q.push(("id".to_owned(), QueryValue::Number(i)));
            },
            None => {},
        }
        proof {
            assert(base =~= seq![
                ("page"@, QueryArg::Text("dapi"@)),
                ("s"@, QueryArg::Text("post"@)),
                ("q"@, QueryArg::Text("index"@)),
                ("user_id"@, QueryArg::Text(self.user())),
                ("api_key"@, QueryArg::Text(self.key())),
            ]);
            assert(with_tags =~= base + match tags {
                Some(t) => seq![("tags"@, QueryArg::Text(join(string_views(t@), " "@)))],
                None => Seq::empty(),
            });
            assert(with_page =~= with_tags + opt_number("pid"@, page));
            assert(with_limit =~= with_page + opt_number("limit"@, limit));
            assert(query_view(q@) =~= with_limit + opt_number("id"@, id));
        }
        q
    }

    /// The query that lists the posts with all of `tags`, the given page, at
    /// most `limit` to a page.
    pub fn list_posts_query(&self, tags: &[String], page: Option<u64>, limit: Option<u64>) -> (q: Vec<
        (String, QueryValue),
    >)
        ensures
            query_view(q@) == query_spec(
                self.user(),
                self.key(),
                Some(string_views(tags@)),
                page,
                limit,
                None,
            ),
    {
        self.query(Some(tags), page, limit, None)
    }

    /// The query that fetches the post with the given id.
    pub fn get_post_query(&self, id: u64) -> (q: Vec<(String, QueryValue)>)
        ensures
            query_view(q@) == query_spec(self.user(), self.key(), None, None, None, Some(id)),
    {
        self.query(None, None, None, Some(id))
    }
}

} // verus!
