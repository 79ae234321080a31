//! The search for a watcher's new posts: the posts listed since the watcher's
//! last seen post, page after page, oldest first. Reading and storing the last
//! seen id and listing posts are done by the caller; what to do next, given
//! each answer, is decided here.
use vstd::prelude::*;
use crate::models::{Post, Posts};
use crate::text::string_views;

verus! {

/// What a search for new posts waits for.
pub enum Phase {
    /// The last seen post id of the watcher.
    AwaitLastId,
    /// Whether the last seen post, `last`, still exists.
    AwaitCheck { last: i64 },
    /// The newest post of the watcher's search tags, to remember it.
    AwaitLatest,
    /// A page of posts; `found` holds the new posts of the pages before,
    /// newest first.
    AwaitPage { last: i64, page: u64, found: Vec<Post> },
    /// That the newest post was remembered; `result` is then handed out.
    AwaitStore { result: Option<Vec<Post>> },
    /// Nothing: the search is over.
    Done,
}

/// What the caller is asked to do next.
pub enum Request {
    /// Read the watcher's last seen post id.
    GetLastId,
    /// Tell whether the post with this id exists.
    GetPost { post_id: u64 },
    /// List the posts with all of `tags`: page `page`, at most `limit` to a
    /// page.
    ListPosts { tags: Vec<String>, page: u64, limit: u64 },
    /// Store `id` as the watcher's last seen post id.
    SetLastId { id: i64 },
    /// The search is over: these are the new posts, oldest first, if any.
    Finish { posts: Option<Vec<Post>> },
}

/// What the caller answers.
pub enum Reply {
    /// The watcher's last seen post id, if it has one.
    LastId(Option<i64>),
    /// Whether the post asked about exists.
    PostExists(bool),
    /// The listing asked for.
    Listed(Posts),
    /// The id has been stored.
    Stored,
}

/// A search for a watcher's new posts.
pub struct GetNew {
    uid: String,
    search_tags: Vec<String>,
    limit: usize,
    phase: Phase,
}

/// What a search waits for, as a value.
pub enum PhaseView {
    AwaitLastId,
    AwaitCheck { last: i64 },
    AwaitLatest,
    AwaitPage { last: i64, page: u64, found: Seq<Post> },
    AwaitStore { result: Option<Seq<Post>> },
    Done,
}

/// What the caller is asked to do, as a value.
pub enum RequestView {
    GetLastId,
    GetPost { post_id: u64 },
    ListPosts { tags: Seq<Seq<char>>, page: u64, limit: u64 },
    SetLastId { id: i64 },
    Finish { posts: Option<Seq<Post>> },
}

/// The views of an optional list of posts.
pub open spec fn opt_posts(p: Option<Vec<Post>>) -> Option<Seq<Post>> {
    match p {
        Some(v) => Some(v@),
        None => None,
    }
}

impl View for Phase {
    type V = PhaseView;

    open spec fn view(&self) -> PhaseView {
        match self {
            Phase::AwaitLastId => PhaseView::AwaitLastId,
            Phase::AwaitCheck { last } => PhaseView::AwaitCheck { last: *last },
            Phase::AwaitLatest => PhaseView::AwaitLatest,
            Phase::AwaitPage { last, page, found } => PhaseView::AwaitPage {
                last: *last,
                page: *page,
                found: found@,
            },
            Phase::AwaitStore { result } => PhaseView::AwaitStore { result: opt_posts(*result) },
            Phase::Done => PhaseView::Done,
        }
    }
}

impl View for Request {
    type V = RequestView;

    open spec fn view(&self) -> RequestView {
        match self {
            Request::GetLastId => RequestView::GetLastId,
            Request::GetPost { post_id } => RequestView::GetPost { post_id: *post_id },
            Request::ListPosts { tags, page, limit } => RequestView::ListPosts {
                tags: string_views(tags@),
                page: *page,
                limit: *limit,
            },
            Request::SetLastId { id } => RequestView::SetLastId { id: *id },
            Request::Finish { posts } => RequestView::Finish { posts: opt_posts(*posts) },
        }
    }
}

/// The posts of a page up to the last seen one, and whether it was met: the
/// page's posts taken while their id is not `last`.
pub open spec fn take_until(posts: Seq<Post>, last: u64) -> (Seq<Post>, bool)
    decreases posts.len(),
{
    if posts.len() == 0 {
        (Seq::empty(), false)
    } else if posts[0].id == last {
        (Seq::empty(), true)
    } else {
        let rest = take_until(posts.drop_first(), last);
        (seq![posts[0]] + rest.0, rest.1)
    }
}

/// How a search ends with the new posts it found, newest first: it hands
/// them out oldest first, after remembering the newest one's id, or hands out
/// nothing where there are none.
pub open spec fn conclude(found: Seq<Post>) -> (PhaseView, RequestView) {
    let result = found.reverse();
    if result.len() > 0 {
        (PhaseView::AwaitStore { result: Some(result) }, RequestView::SetLastId { id: result.last().id as i64 })
    } else {
        (PhaseView::Done, RequestView::Finish { posts: None })
    }
}

/// One step of a search for new posts: from what it waits for and the answer,
/// what it waits for next and what it asks. `search` are the tags of every
/// listing asked for (the watcher's own tags with the default tags added),
/// `limit` the number of posts asked for on each page and the most posts to
/// collect (once reached, no further page is read).
pub open spec fn step_spec(
    search: Seq<Seq<char>>,
    limit: usize,
    phase: PhaseView,
    reply: ReplyView,
) -> (PhaseView, RequestView) {
    match (phase, reply) {
        (PhaseView::AwaitLastId, ReplyView::LastId(None)) => (
            PhaseView::AwaitLatest,
            RequestView::ListPosts { tags: search, page: 0, limit: 1 },
        ),
        (PhaseView::AwaitLastId, ReplyView::LastId(Some(last))) => (
            PhaseView::AwaitCheck { last },
            RequestView::GetPost { post_id: last as u64 },
        ),
        (PhaseView::AwaitCheck { last }, ReplyView::PostExists(false)) => (
            PhaseView::AwaitLatest,
            RequestView::ListPosts { tags: search, page: 0, limit: 1 },
        ),
        (PhaseView::AwaitCheck { last }, ReplyView::PostExists(true)) => (
            PhaseView::AwaitPage { last, page: 0, found: Seq::empty() },
            RequestView::ListPosts { tags: search, page: 0, limit: limit as u64 },
        ),
        (PhaseView::AwaitLatest, ReplyView::Listed(res)) => if res.posts.len() > 0 {
            (PhaseView::AwaitStore { result: None }, RequestView::SetLastId { id: res.posts[0].id as i64 })
        } else {
            (PhaseView::Done, RequestView::Finish { posts: None })
        },
        (PhaseView::AwaitPage { last, page, found }, ReplyView::Listed(res)) => if res.count == 0 {
            conclude(found)
        } else {
            let (taken, met) = take_until(res.posts, last as u64);
            let found2 = found + taken;
            if met || found2.len() >= limit {
                conclude(found2)
            } else {
                (
                    PhaseView::AwaitPage { last, page: (page + 1) as u64, found: found2 },
                    RequestView::ListPosts { tags: search, page: (page + 1) as u64, limit: limit as u64 },
                )
            }
        },
        (PhaseView::AwaitStore { result }, ReplyView::Stored) => (
            PhaseView::Done,
            RequestView::Finish { posts: result },
        ),
        _ => (phase, RequestView::Finish { posts: None }),
    }
}

/// An answer, as a value.
pub enum ReplyView {
    LastId(Option<i64>),
    PostExists(bool),
    Listed(PostsView),
    Stored,
}

/// A listing, as a value.
pub struct PostsView {
    pub count: u64,
    pub offset: u64,
    pub posts: Seq<Post>,
}

impl View for Reply {
    type V = ReplyView;

    open spec fn view(&self) -> ReplyView {
        match self {
            Reply::LastId(l) => ReplyView::LastId(*l),
            Reply::PostExists(b) => ReplyView::PostExists(*b),
            Reply::Listed(p) => ReplyView::Listed(PostsView { count: p.count, offset: p.offset, posts: p.posts@ }),
            Reply::Stored => ReplyView::Stored,
        }
    }
}

/// Whether a step from `phase` can take `reply`: the answer is the one asked
/// for, and a further page, where one is needed, has a number.
pub open spec fn takes(limit: usize, phase: PhaseView, reply: ReplyView) -> bool {
    match (phase, reply) {
        (PhaseView::AwaitLastId, ReplyView::LastId(_)) => true,
        (PhaseView::AwaitCheck { .. }, ReplyView::PostExists(_)) => true,
        (PhaseView::AwaitLatest, ReplyView::Listed(_)) => true,
        (PhaseView::AwaitPage { last, page, found }, ReplyView::Listed(res)) => {
            let (taken, met) = take_until(res.posts, last as u64);
            res.count == 0 || met || found.len() + taken.len() >= limit || page < u64::MAX
        },
        (PhaseView::AwaitStore { .. }, ReplyView::Stored) => true,
        _ => false,
    }
}

proof fn lemma_take_until_prefix(posts: Seq<Post>, last: u64, i: int)
    requires
        0 <= i <= posts.len(),
        forall|k: int| 0 <= k < i ==> (#[trigger] posts[k]).id != last,
    ensures
        take_until(posts, last) == (posts.take(i) + take_until(posts.skip(i), last).0, take_until(
            posts.skip(i),
            last,
        ).1),
    decreases i,
{
    if i > 0 {
        let d = posts.drop_first();
        assert forall|k: int| 0 <= k < i - 1 implies (#[trigger] d[k]).id != last by {
            assert(d[k] == posts[k + 1]);
        }
        lemma_take_until_prefix(d, last, i - 1);
        assert(d.skip(i - 1) =~= posts.skip(i));
        assert(seq![posts[0]] + d.take(i - 1) =~= posts.take(i));
        assert(posts[0].id != last);
    } else {
        assert(posts.take(0) =~= Seq::<Post>::empty());
        assert(posts.skip(0) =~= posts);
    }
}

/// The posts of `posts` up to the first with id `last`, and whether there was
/// one.
fn take_until_exec(posts: Vec<Post>, last: u64) -> (r: (Vec<Post>, bool))
    ensures
        (r.0@, r.1) == take_until(posts@, last),
{
    let mut k: usize = 0;
    while k < posts.len() && posts[k].id != last
        invariant
            k <= posts.len(),
            forall|j: int| 0 <= j < k ==> (#[trigger] posts@[j]).id != last,
        decreases posts.len() - k,
    {
        k = k + 1;
    }
    proof {
        lemma_take_until_prefix(posts@, last, k as int);
        if k < posts.len() {
            assert(posts@.skip(k as int)[0] == posts@[k as int]);
        } else {
            assert(posts@.skip(k as int).len() == 0);
        }
    }
    let met = k < posts.len();
    let mut taken = posts;
    taken.truncate(k);
    (taken, met)
}

/// `found` in reverse order.
fn reversed(found: Vec<Post>) -> (r: Vec<Post>)
    ensures
        r@ == found@.reverse(),
{
    let ghost orig = found@;
    let mut rest = found;
    let mut r: Vec<Post> = Vec::new();
    while rest.len() > 0
        invariant
            rest@ == orig.take(rest@.len() as int),
            r@.len() + rest@.len() == orig.len(),
            forall|k: int| 0 <= k < r@.len() ==> #[trigger] r@[k] == orig[orig.len() - 1 - k],
        decreases rest@.len(),
    {
        let ghost n = rest@.len();
        match rest.pop() {
            Some(p) => {
                r.push(p);
                assert(rest@ =~= orig.take(rest@.len() as int));
            },
            None => {},
        }
    }
    assert(r@ =~= orig.reverse());
    r
}

/// The ending of a search that found `found`, newest first.
fn conclude_exec(found: Vec<Post>) -> (r: (Phase, Request))
    ensures
        (r.0@, r.1@) == conclude(found@),
{
    let result = reversed(found);
    if result.len() > 0 {
        let id = result[result.len() - 1].id as i64;
        (Phase::AwaitStore { result: Some(result) }, Request::SetLastId { id })
    } else {
        (Phase::Done, Request::Finish { posts: None })
    }
}

impl GetNew {
    /// The id of the watcher whose new posts are searched for.
    pub closed spec fn watcher(&self) -> Seq<char> {
        self.uid@
    }

    /// The id of the watcher whose new posts are searched for.
    pub fn uid(&self) -> (u: &str)
        ensures
            u@ == self.watcher(),
    {
        self.uid.as_str()
    }

    /// The tags of each search for new posts.
    pub closed spec fn search(&self) -> Seq<Seq<char>> {
        string_views(self.search_tags@)
    }

    /// The most posts the search collects.
    pub closed spec fn max_posts(&self) -> usize {
        self.limit
    }

    /// What the search waits for.
    pub closed spec fn waits_for(&self) -> PhaseView {
        self.phase@
    }

    /// Whether the search can take `reply` next.
    pub fn can_take(&self, reply: &Reply) -> (b: bool)
        ensures
            b == takes(self.max_posts(), self.waits_for(), reply@),
    {
        match (&self.phase, reply) {
            (Phase::AwaitLastId, Reply::LastId(_)) => true,
            (Phase::AwaitCheck { .. }, Reply::PostExists(_)) => true,
            (Phase::AwaitLatest, Reply::Listed(_)) => true,
            (Phase::AwaitPage { last, page, found }, Reply::Listed(res)) => {
                if res.count == 0 || *page < u64::MAX {
                    true
                } else {
                    let mut k: usize = 0;
                    while k < res.posts.len() && res.posts[k].id != *last as u64
                        invariant
                            k <= res.posts.len(),
                            forall|j: int| 0 <= j < k ==> (#[trigger] res.posts@[j]).id != *last as u64,
                        decreases res.posts.len() - k,
                    {
                        k = k + 1;
                    }
                    proof {
                        lemma_take_until_prefix(res.posts@, *last as u64, k as int);
                        if k < res.posts.len() {
                            assert(res.posts@.skip(k as int)[0] == res.posts@[k as int]);
                        } else {
                            assert(res.posts@.skip(k as int).len() == 0);
                        }
                    }
                    k < res.posts.len() || found.len() as u128 + k as u128 >= self.limit as u128
                }
            },
            (Phase::AwaitStore { .. }, Reply::Stored) => true,
            _ => false,
        }
    }

    /// One step of the search: what it asks next, given the answer to what it
    /// asked before.
    pub fn step(self, reply: Reply) -> (r: (GetNew, Request))
        requires
            takes(self.max_posts(), self.waits_for(), reply@),
        ensures
            r.0.watcher() == self.watcher(),
            r.0.search() == self.search(),
            r.0.max_posts() == self.max_posts(),
            (r.0.waits_for(), r.1@) == step_spec(
                self.search(),
                self.max_posts(),
                self.waits_for(),
                reply@,
            ),
    {
        let GetNew { uid, search_tags, limit, phase } = self;
        let (next, request) = match (phase, reply) {
            (Phase::AwaitLastId, Reply::LastId(None)) => (
                Phase::AwaitLatest,
                Request::ListPosts { tags: search_tags.clone(), page: 0, limit: 1 },
            ),
            (Phase::AwaitLastId, Reply::LastId(Some(last))) => (
                Phase::AwaitCheck { last },
                Request::GetPost { post_id: last as u64 },
            ),
            (Phase::AwaitCheck { last }, Reply::PostExists(exists)) => {
                if exists {
                    (
                        Phase::AwaitPage { last, page: 0, found: Vec::new() },
                        Request::ListPosts { tags: search_tags.clone(), page: 0, limit: limit as u64 },
                    )
                } else {
                    (Phase::AwaitLatest, Request::ListPosts { tags: search_tags.clone(), page: 0, limit: 1 })
                }
            },
            (Phase::AwaitLatest, Reply::Listed(res)) => {
                if res.posts.len() > 0 {
                    let id = res.posts[0].id as i64;
                    (Phase::AwaitStore { result: None }, Request::SetLastId { id })
                } else {
                    (Phase::Done, Request::Finish { posts: None })
                }
            },
            (Phase::AwaitPage { last, page, found }, Reply::Listed(res)) => {
                if res.count == 0 {
                    conclude_exec(found)
                } else {
                    let (mut taken, met) = take_until_exec(res.posts, last as u64);
                    let mut found2 = found;
                    found2.append(&mut taken);
                    if met || found2.len() >= limit {
                        conclude_exec(found2)
                    } else {
                        (
                            Phase::AwaitPage { last, page: page + 1, found: found2 },
                            Request::ListPosts { tags: search_tags.clone(), page: page + 1, limit: limit as u64 },
                        )
                    }
                }
            },
            (Phase::AwaitStore { result }, Reply::Stored) => (
                Phase::Done,
                Request::Finish { posts: result },
            ),
            (p, _) => (p, Request::Finish { posts: None }),
        };
        (GetNew { uid, search_tags, limit, phase: next }, request)
    }
}

/// The posts of a list of pages, page after page.
pub open spec fn flatten(pages: Seq<Seq<Post>>) -> Seq<Post>
    decreases pages.len(),
{
    if pages.len() == 0 {
        Seq::empty()
    } else {
        pages[0] + flatten(pages.drop_first())
    }
}

/// A listing with the given posts, out of a nonzero total.
pub open spec fn listing(posts: Seq<Post>) -> ReplyView {
    ReplyView::Listed(PostsView { count: 1, offset: 0, posts })
}

/// The steps of a search from `phase` on listings of the given pages, for as
/// long as it waits for pages: where it then stands and what it last asked.
pub open spec fn feed_pages(
    search: Seq<Seq<char>>,
    limit: usize,
    phase: PhaseView,
    pages: Seq<Seq<Post>>,
) -> (PhaseView, RequestView)
    decreases pages.len(),
{
    let r = step_spec(search, limit, phase, listing(pages[0]));
    if pages.len() <= 1 {
        r
    } else if r.0 is AwaitPage {
        feed_pages(search, limit, r.0, pages.drop_first())
    } else {
        r
    }
}

proof fn lemma_take_until_absent(posts: Seq<Post>, last: u64)
    requires
        forall|k: int| 0 <= k < posts.len() ==> (#[trigger] posts[k]).id != last,
    ensures
        take_until(posts, last) == (posts, false),
{
    lemma_take_until_prefix(posts, last, posts.len() as int);
    assert(posts.take(posts.len() as int) =~= posts);
    assert(posts.skip(posts.len() as int).len() == 0);
}

/// The pages read before the one that shows the last seen post: none of them
/// shows it.
pub open spec fn pages_before(pages: Seq<Seq<Post>>, last: u64) -> bool {
    forall|i: int, k: int|
        0 <= i < pages.len() - 1 && 0 <= k < pages[i].len() ==> (#[trigger] pages[i][k]).id != last
}

/// What a search hands out once it has read `pages` and met the last seen
/// post on the last of them: the posts before that post, page after page,
/// oldest first.
pub open spec fn posts_before_last(pages: Seq<Seq<Post>>, last: u64) -> Seq<Post> {
    (flatten(pages.drop_last()) + take_until(pages.last(), last).0).reverse()
}

proof fn lemma_feed_pages(
    search: Seq<Seq<char>>,
    limit: usize,
    last: i64,
    page: u64,
    found: Seq<Post>,
    pages: Seq<Seq<Post>>,
)
    requires
        pages.len() > 0,
        pages_before(pages, last as u64),
        take_until(pages.last(), last as u64).1,
        found.len() + flatten(pages.drop_last()).len() < limit,
    ensures
        feed_pages(search, limit, PhaseView::AwaitPage { last, page, found }, pages) == conclude(
            found + flatten(pages.drop_last()) + take_until(pages.last(), last as u64).0,
        ),
    decreases pages.len(),
{
    let l = last as u64;
    if pages.len() == 1 {
        assert(pages.drop_last() =~= Seq::<Seq<Post>>::empty());
        assert(found + flatten(pages.drop_last()) =~= found);
    } else {
        let p0 = pages[0];
        assert forall|k: int| 0 <= k < p0.len() implies (#[trigger] p0[k]).id != l by {
            assert(pages[0][k] == p0[k]);
        }
        lemma_take_until_absent(p0, l);
        let rest = pages.drop_first();
        assert(rest.drop_last() =~= pages.drop_last().drop_first());
        assert(pages.drop_last()[0] == p0);
        assert(flatten(pages.drop_last()) == p0 + flatten(rest.drop_last()));
        assert(rest.last() == pages.last());
        assert(pages_before(rest, l)) by {
            assert forall|i: int, k: int| 0 <= i < rest.len() - 1 && 0 <= k < rest[i].len() implies (
            #[trigger] rest[i][k]).id != l by {
                assert(rest[i] == pages[i + 1]);
            }
        }
        let found2 = found + p0;
        assert(found2.len() < limit);
        lemma_feed_pages(search, limit, last, (page + 1) as u64, found2, rest);
        assert(found2 + flatten(rest.drop_last()) =~= found + flatten(pages.drop_last()));
    }
}

/// A search that has confirmed the watcher's last seen post, and then reads
/// pages of which only the last shows that post, with fewer new posts before
/// it than the limit, ends by handing out the posts before that post, page
/// after page, oldest first; before that it stores the id of the newest of
/// them. Where there are none, it hands out nothing.
pub proof fn law_new_posts_are_those_before_the_last_seen(
    search: Seq<Seq<char>>,
    limit: usize,
    last: i64,
    pages: Seq<Seq<Post>>,
)
    requires
        pages.len() > 0,
        pages_before(pages, last as u64),
        exists|k: int| 0 <= k < pages.last().len() && (#[trigger] pages.last()[k]).id == last as u64,
        flatten(pages.drop_last()).len() < limit,
    ensures
        ({
            let r = feed_pages(
                search,
                limit,
                step_spec(search, limit, PhaseView::AwaitCheck { last }, ReplyView::PostExists(true)).0,
                pages,
            );
            let new_posts = posts_before_last(pages, last as u64);
            if new_posts.len() > 0 {
                &&& r.0 == PhaseView::AwaitStore { result: Some(new_posts) }
                &&& r.1 == RequestView::SetLastId { id: new_posts.last().id as i64 }
                &&& step_spec(search, limit, r.0, ReplyView::Stored) == (
                    PhaseView::Done,
                    RequestView::Finish { posts: Some(new_posts) },
                )
            } else {
                r == (PhaseView::Done, RequestView::Finish { posts: None })
            }
        }),
{
    let l = last as u64;
    let k = choose|k: int| 0 <= k < pages.last().len() && (#[trigger] pages.last()[k]).id == l;
    lemma_first_match(pages.last(), l, k);
    let m2 = first_match_index(pages.last(), l, k);
    lemma_take_until_prefix(pages.last(), l, m2);
    assert(pages.last().skip(m2)[0] == pages.last()[m2]);
    assert(take_until(pages.last(), l).1);
    lemma_feed_pages(search, limit, last, 0, Seq::empty(), pages);
    assert(Seq::<Post>::empty() + flatten(pages.drop_last()) =~= flatten(pages.drop_last()));
}

/// The first position, at most `k`, of a post with id `id`, where `k` holds
/// one.
pub open spec fn first_match_index(posts: Seq<Post>, id: u64, k: int) -> int
    decreases k,
{
    if k <= 0 {
        0
    } else if posts[0].id == id {
        0
    } else {
        1 + first_match_index(posts.drop_first(), id, k - 1)
    }
}

proof fn lemma_first_match(posts: Seq<Post>, id: u64, k: int)
    requires
        0 <= k < posts.len(),
        posts[k].id == id,
    ensures
        0 <= first_match_index(posts, id, k) <= k,
        posts[first_match_index(posts, id, k)].id == id,
        forall|j: int| 0 <= j < first_match_index(posts, id, k) ==> (#[trigger] posts[j]).id != id,
    decreases k,
{
    if k > 0 && posts[0].id != id {
        let d = posts.drop_first();
        lemma_first_match(d, id, k - 1);
        let f = first_match_index(d, id, k - 1);
        assert forall|j: int| 0 <= j < f + 1 implies (#[trigger] posts[j]).id != id by {
            if j > 0 {
                assert(posts[j] == d[j - 1]);
            }
        }
    }
}

/// No post of the list has id `id`.
pub open spec fn lacks_post(posts: Seq<Post>, id: u64) -> bool {
    forall|k: int| 0 <= k < posts.len() ==> (#[trigger] posts[k]).id != id
}

proof fn lemma_take_until_lacks(posts: Seq<Post>, last: u64)
    ensures
        lacks_post(take_until(posts, last).0, last),
        take_until(posts, last).0.len() <= posts.len(),
    decreases posts.len(),
{
    if posts.len() > 0 && posts[0].id != last {
        lemma_take_until_lacks(posts.drop_first(), last);
        let t = take_until(posts.drop_first(), last).0;
        assert forall|k: int| 0 <= k < (seq![posts[0]] + t).len() implies (#[trigger] (seq![posts[0]]
            + t)[k]).id != last by {
            if k > 0 {
                assert((seq![posts[0]] + t)[k] == t[k - 1]);
            }
        }
    }
}

/// Whenever a step is to hand out new posts, it first asks to store the id
/// of the newest of them, and there is at least one; once that is stored, it
/// hands out exactly those posts.
pub proof fn law_store_newest_before_handing_out(
    search: Seq<Seq<char>>,
    limit: usize,
    phase: PhaseView,
    reply: ReplyView,
)
    requires
        takes(limit, phase, reply),
    ensures
        ({
            let r = step_spec(search, limit, phase, reply);
            r.0 matches PhaseView::AwaitStore { result: Some(posts) } ==> posts.len() > 0
                && r.1 == RequestView::SetLastId { id: posts.last().id as i64 }
                && step_spec(search, limit, r.0, ReplyView::Stored) == (
                PhaseView::Done,
                RequestView::Finish { posts: Some(posts) },
            )
        }),
{
}

/// The last seen post is never handed out again: while a search reads pages,
/// none of the posts it has collected has the last seen id, and so none of
/// the posts it hands out.
pub proof fn law_last_seen_not_handed_out(
    search: Seq<Seq<char>>,
    limit: usize,
    last: i64,
    page: u64,
    found: Seq<Post>,
    reply: ReplyView,
)
    requires
        lacks_post(found, last as u64),
    ensures
        ({
            let r = step_spec(search, limit, PhaseView::AwaitPage { last, page, found }, reply);
            &&& r.0 matches PhaseView::AwaitPage { last: l2, found: f2, .. } ==> l2 == last
                && lacks_post(f2, last as u64)
            &&& r.0 matches PhaseView::AwaitStore { result: Some(posts) } ==> lacks_post(
                posts,
                last as u64,
            )
        }),
{
    let l = last as u64;
    if let ReplyView::Listed(res) = reply {
        lemma_take_until_lacks(res.posts, l);
        let f2 = found + take_until(res.posts, l).0;
        assert(lacks_post(f2, l)) by {
            assert forall|k: int| 0 <= k < f2.len() implies (#[trigger] f2[k]).id != l by {
                if k >= found.len() {
                    assert(f2[k] == take_until(res.posts, l).0[k - found.len()]);
                }
            }
        }
        assert(lacks_post(found.reverse(), l)) by {
            assert forall|k: int| 0 <= k < found.reverse().len() implies (#[trigger] found.reverse()[k]).id != l by {
                assert(found.reverse()[k] == found[found.len() - 1 - k]);
            }
        }
        assert(lacks_post(f2.reverse(), l)) by {
            assert forall|k: int| 0 <= k < f2.reverse().len() implies (#[trigger] f2.reverse()[k]).id != l by {
                assert(f2.reverse()[k] == f2[f2.len() - 1 - k]);
            }
        }
    }
}

/// A watcher without a last seen post gets nothing handed out: the search
/// only stores the id of the newest post of its search tags, where there is
/// one.
pub proof fn law_first_run_hands_out_nothing(
    search: Seq<Seq<char>>,
    limit: usize,
    listed: Seq<Post>,
)
    ensures
        ({
            let r1 = step_spec(search, limit, PhaseView::AwaitLastId, ReplyView::LastId(None));
            let r2 = step_spec(search, limit, r1.0, listing(listed));
            &&& r1.1 == RequestView::ListPosts { tags: search, page: 0, limit: 1 }
            &&& if listed.len() > 0 {
                &&& r2.1 == RequestView::SetLastId { id: listed[0].id as i64 }
                &&& step_spec(search, limit, r2.0, ReplyView::Stored) == (
                    PhaseView::Done,
                    RequestView::Finish { posts: None },
                )
            } else {
                r2 == (PhaseView::Done, RequestView::Finish { posts: None })
            }
        }),
{
}

/// A search asks for a further page only while it has collected fewer posts
/// than its limit, and only where the page just read had results and did not
/// show the last seen post.
pub proof fn law_paging_stops_at_limit(
    search: Seq<Seq<char>>,
    limit: usize,
    last: i64,
    page: u64,
    found: Seq<Post>,
    res: PostsView,
)
    ensures
        ({
            let r = step_spec(search, limit, PhaseView::AwaitPage { last, page, found }, ReplyView::Listed(res));
            r.0 matches PhaseView::AwaitPage { found: f2, .. } ==> {
                &&& f2.len() < limit
                &&& res.count != 0
                &&& !take_until(res.posts, last as u64).1
            }
        }),
{
}

/// Every listing that a search asks for has the search's tags, whatever it
/// waits for and whatever the answer; where the last seen post no longer
/// exists, it asks for the newest post with those tags.
pub proof fn law_listings_use_search_tags(
    search: Seq<Seq<char>>,
    limit: usize,
    phase: PhaseView,
    reply: ReplyView,
    last: i64,
)
    ensures
        step_spec(search, limit, phase, reply).1 matches RequestView::ListPosts { tags, .. } ==> tags
            == search,
        step_spec(search, limit, PhaseView::AwaitCheck { last }, ReplyView::PostExists(false)) == (
            PhaseView::AwaitLatest,
            RequestView::ListPosts { tags: search, page: 0, limit: 1 },
        ),
{
}

impl GetNew {
    /// A search for the new posts of watcher `uid`, listing posts with
    /// `search_tags`, `limit` to a page and at most `limit` in all, waiting
    /// for the watcher's last seen post id.
    pub(crate) fn start(uid: String, search_tags: Vec<String>, limit: usize) -> (g: GetNew)
        ensures
            g.watcher() == uid@,
            g.search() == string_views(search_tags@),
            g.max_posts() == limit,
            g.waits_for() == PhaseView::AwaitLastId,
    {
        GetNew { uid, search_tags, limit, phase: Phase::AwaitLastId }
    }
}

} // verus!
