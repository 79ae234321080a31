//! The scraper and its runs over all watchers: each watcher is searched for
//! new posts, which then go to each of its hooks. Searching, fetching and
//! sending are done by the caller; what to do next, given each answer, is
//! decided here.
use vstd::prelude::*;
use crate::models::Post;
use crate::search::{opt_posts, GetNew, PhaseView, Request, RequestView};
use crate::text::string_views;
use crate::watch::WatchMap;

verus! {

/// A scraper: where it keeps each watcher's last seen post, its watchers, the
/// most posts a watcher collects in one run, the tags added to each search,
/// and the API credentials.
pub struct Scraper<D> {
    db: D,
    watchers: WatchMap,
    limit: usize,
    default_tags: Option<Vec<String>>,
    user_id: String,
    api_key: String,
}

impl<D> Scraper<D> {
    /// Where the scraper keeps each watcher's last seen post.
    pub closed spec fn spec_db(&self) -> D {
        self.db
    }

    /// The scraper's watchers.
    pub closed spec fn spec_watchers(&self) -> WatchMap {
        self.watchers
    }

    /// The most posts a watcher collects in one run.
    pub closed spec fn spec_limit(&self) -> usize {
        self.limit
    }

    /// The tags added to each search, if any.
    pub closed spec fn spec_default_tags(&self) -> Option<Vec<String>> {
        self.default_tags
    }

    /// The API user id.
    pub closed spec fn spec_user_id(&self) -> Seq<char> {
        self.user_id@
    }

    /// The API key.
    pub closed spec fn spec_api_key(&self) -> Seq<char> {
        self.api_key@
    }

    /// The tags added to every search of new posts, none where there are none.
    pub open spec fn default_tag_views(&self) -> Seq<Seq<char>> {
        match self.spec_default_tags() {
            Some(t) => string_views(t@),
            None => Seq::empty(),
        }
    }

    /// A scraper with the given parts.
    pub fn new(
        db: D,
        watch: WatchMap,
        limit: usize,
        default_tags: Option<Vec<String>>,
        user_id: String,
        api_key: String,
    ) -> (s: Self)
        ensures
            s.spec_db() == db,
            s.spec_watchers() == watch,
            s.spec_limit() == limit,
            s.spec_default_tags() == default_tags,
            s.spec_user_id() == user_id@,
            s.spec_api_key() == api_key@,
    {
        Scraper { db, watchers: watch, limit, default_tags, user_id, api_key }
    }

    /// Where the scraper keeps each watcher's last seen post.
    pub fn db(&self) -> (db: &D)
        ensures
            *db == self.spec_db(),
    {
        &self.db
    }

    /// The watchers.
    pub fn watchers(&self) -> (w: &WatchMap)
        ensures
            *w == self.spec_watchers(),
    {
        &self.watchers
    }

    /// The most posts a watcher collects in one run.
    pub fn limit(&self) -> (l: usize)
        ensures
            l == self.spec_limit(),
    {
        self.limit
    }

    /// The API user id.
    pub fn user_id(&self) -> (u: &str)
        ensures
            u@ == self.spec_user_id(),
    {
        self.user_id.as_str()
    }

    /// The API key.
    pub fn api_key(&self) -> (k: &str)
        ensures
            k@ == self.spec_api_key(),
    {
        self.api_key.as_str()
    }

    /// Starts the search for the new posts of the watcher `uid` with `tags`:
    /// it first asks for the watcher's last seen post id.
    pub fn get_new(&self, uid: &str, tags: &[String]) -> (r: (GetNew, Request))
        ensures
            r.0.watcher() == uid@,
            r.0.search() == string_views(tags@) + self.default_tag_views(),
            r.0.max_posts() == self.spec_limit(),
            r.0.waits_for() == PhaseView::AwaitLastId,
            r.1@ == RequestView::GetLastId,
    {
        let search_tags = self.search_tags(tags);
        (GetNew::start(uid.to_owned(), search_tags, self.limit), Request::GetLastId)
    }

    /// The tags of a watcher's searches for new posts: its own tags followed
    /// by the default tags.
    pub fn search_tags(&self, tags: &[String]) -> (all: Vec<String>)
        ensures
            string_views(all@) == string_views(tags@) + self.default_tag_views(),
            all@.len() == tags@.len() + match self.spec_default_tags() {
                Some(d) => d@.len(),
                None => 0,
            },
            forall|i: int| 0 <= i < tags@.len() ==> (#[trigger] all@[i])@ == tags@[i]@,
            self.spec_default_tags() matches Some(d) ==> forall|j: int| 0 <= j < d@.len() ==> (
            #[trigger] all@[tags@.len() + j])@ == d@[j]@,
    {
        let mut all: Vec<String> = Vec::new();
        let mut i: usize = 0;
        while i < tags.len()
            invariant
                i <= tags.len(),
                string_views(all@) == string_views(tags@).take(i as int),
            decreases tags.len() - i,
        {
            all.push(tags[i].clone());
            assert(string_views(tags@).take(i + 1) =~= string_views(tags@).take(i as int).push(tags@[i as int]@));
            assert(string_views(all@) =~= string_views(tags@).take(i + 1));
            i = i + 1;
        }
        assert(string_views(tags@).take(tags.len() as int) =~= string_views(tags@));
        match &self.default_tags {
            None => {
                assert(string_views(all@) =~= string_views(tags@) + Seq::<Seq<char>>::empty());
            },
            Some(d) => {
                let ghost base = string_views(all@);
                let mut j: usize = 0;
                while j < d.len()
                    invariant
                        j <= d.len(),
                        string_views(all@) == base + string_views(d@).take(j as int),
                    decreases d.len() - j,
                {
                    let ghost before = string_views(all@);
                    all.push(d[j].clone());
                    assert(string_views(all@) =~= before.push(d@[j as int]@));
                    assert(string_views(d@).take(j + 1) =~= string_views(d@).take(j as int).push(d@[j as int]@));
                    assert(string_views(all@) =~= base + string_views(d@).take(j + 1));
                    j = j + 1;
                }
                assert(string_views(d@).take(d.len() as int) =~= string_views(d@));
            },
        }
        proof {
            self.law_default_tags_all_added();
            let sv = string_views(all@);
            assert(sv.len() == all@.len());
            assert forall|i: int| 0 <= i < tags@.len() implies (#[trigger] all@[i])@ == tags@[i]@ by {
                assert(sv[i] == all@[i]@);
                assert(string_views(tags@)[i] == tags@[i]@);
            }
            if self.spec_default_tags() is Some {
                let d = self.spec_default_tags().unwrap();
                assert forall|j: int| 0 <= j < d@.len() implies (#[trigger] all@[tags@.len() + j])@ == d@[j]@ by {
                    assert(sv[tags@.len() + j] == all@[tags@.len() + j]@);
                    assert(self.default_tag_views()[j] == d@[j]@);
                }
            }
        }
        all
    }

    /// Every default tag is added to each search, in order, and nothing else.
    pub proof fn law_default_tags_all_added(&self)
        ensures
            self.default_tag_views().len() == match self.spec_default_tags() {
                Some(d) => d@.len(),
                None => 0,
            },
            self.spec_default_tags() matches Some(d) ==> forall|j: int| 0 <= j < d@.len() ==> #[trigger] self.default_tag_views()[j] == d@[j]@,
    {
    }
}

/// Where a run over all watchers stands.
pub enum RunPhase {
    /// Searching for the new posts of watcher `watcher`.
    Searching { watcher: usize },
    /// Handing `posts`, the new posts of watcher `watcher`, to its hook `hook`.
    Sending { watcher: usize, hook: usize, posts: Vec<Post> },
    /// Every watcher has been served.
    Finished,
}

/// What a run asks of the caller.
pub enum RunRequest {
    /// Search for the new posts of the watcher at this position.
    Search { watcher: usize },
    /// Hand the run's current posts to this hook of this watcher.
    Send { watcher: usize, hook: usize },
    /// The run is over.
    Done,
}

/// What the caller answers a run.
pub enum RunEvent {
    /// The search found these new posts, if any.
    Searched(Option<Vec<Post>>),
    /// The posts were handed to the hook.
    Sent,
}

/// Where a run stands, as a value.
pub enum RunPhaseView {
    Searching { watcher: nat },
    Sending { watcher: nat, hook: nat, posts: Seq<Post> },
    Finished,
}

/// What a run asks, as a value.
pub enum RunRequestView {
    Search { watcher: nat },
    Send { watcher: nat, hook: nat },
    Done,
}

/// What the caller answers a run, as a value.
pub enum RunEventView {
    Searched(Option<Seq<Post>>),
    Sent,
}

impl View for RunPhase {
    type V = RunPhaseView;

    open spec fn view(&self) -> RunPhaseView {
        match self {
            RunPhase::Searching { watcher } => RunPhaseView::Searching { watcher: *watcher as nat },
            RunPhase::Sending { watcher, hook, posts } => RunPhaseView::Sending {
                watcher: *watcher as nat,
                hook: *hook as nat,
                posts: posts@,
            },
            RunPhase::Finished => RunPhaseView::Finished,
        }
    }
}

impl View for RunRequest {
    type V = RunRequestView;

    open spec fn view(&self) -> RunRequestView {
        match self {
            RunRequest::Search { watcher } => RunRequestView::Search { watcher: *watcher as nat },
            RunRequest::Send { watcher, hook } => RunRequestView::Send {
                watcher: *watcher as nat,
                hook: *hook as nat,
            },
            RunRequest::Done => RunRequestView::Done,
        }
    }
}

impl View for RunEvent {
    type V = RunEventView;

    open spec fn view(&self) -> RunEventView {
        match self {
            RunEvent::Searched(p) => RunEventView::Searched(opt_posts(*p)),
            RunEvent::Sent => RunEventView::Sent,
        }
    }
}

/// The number of hooks of each watcher, in visiting order.
pub open spec fn hook_counts(ws: Seq<(String, (Vec<String>, Vec<crate::hooks::HookImpl>))>) -> Seq<nat> {
    ws.map_values(|w: (String, (Vec<String>, Vec<crate::hooks::HookImpl>))| w.1.1@.len())
}

/// A run moves on to the watcher at position `w`, or ends after the last.
pub open spec fn next_watcher(counts: Seq<nat>, w: nat) -> (RunPhaseView, RunRequestView) {
    if w < counts.len() {
        (RunPhaseView::Searching { watcher: w }, RunRequestView::Search { watcher: w })
    } else {
        (RunPhaseView::Finished, RunRequestView::Done)
    }
}

/// One step of a run over the watchers, whose hook counts are `counts`: a
/// watcher's new posts, where there are any, go to each of its hooks in
/// order, then the next watcher is searched; after the last, the run ends.
pub open spec fn run_step_spec(counts: Seq<nat>, phase: RunPhaseView, event: RunEventView) -> (
    RunPhaseView,
    RunRequestView,
) {
    match (phase, event) {
        (RunPhaseView::Searching { watcher }, RunEventView::Searched(found)) => match found {
            Some(posts) => if watcher < counts.len() && counts[watcher as int] > 0 {
                (
                    RunPhaseView::Sending { watcher, hook: 0, posts },
                    RunRequestView::Send { watcher, hook: 0 },
                )
            } else {
                next_watcher(counts, watcher + 1)
            },
            None => next_watcher(counts, watcher + 1),
        },
        (RunPhaseView::Sending { watcher, hook, posts }, RunEventView::Sent) => if watcher
            < counts.len() && hook + 1 < counts[watcher as int] {
            (
                RunPhaseView::Sending { watcher, hook: hook + 1, posts },
                RunRequestView::Send { watcher, hook: hook + 1 },
            )
        } else {
            next_watcher(counts, watcher + 1)
        },
        (RunPhaseView::Finished, _) => (RunPhaseView::Finished, RunRequestView::Done),
        (p, _) => (p, RunRequestView::Done),
    }
}

/// A run of the scraper over all its watchers.
pub struct Run {
    phase: RunPhase,
}

impl Run {
    /// Where the run stands.
    pub closed spec fn stands(&self) -> RunPhaseView {
        self.phase@
    }

    /// The posts that the run is handing to hooks, none where it is not.
    pub fn posts(&self) -> (p: &[Post])
        ensures
            match self.stands() {
                RunPhaseView::Sending { posts, .. } => p@ == posts,
                _ => p@.len() == 0,
            },
    {
        match &self.phase {
            RunPhase::Sending { posts, .. } => posts.as_slice(),
            _ => &[],
        }
    }

    /// One step of the run over the watchers of `sc`.
    pub fn step<D>(self, sc: &Scraper<D>, event: RunEvent) -> (r: (Run, RunRequest))
        ensures
            (r.0.stands(), r.1@) == run_step_spec(
                hook_counts(sc.spec_watchers().watchers()),
                self.stands(),
                event@,
            ),
    {
        let ghost counts = hook_counts(sc.spec_watchers().watchers());
        let n = sc.watchers.len();
        match (self.phase, event) {
            (RunPhase::Searching { watcher }, RunEvent::Searched(found)) => {
                match found {
                    Some(posts) => {
                        if watcher < n && sc.watchers.get(watcher).1.1.len() > 0 {
                            (
                                Run { phase: RunPhase::Sending { watcher, hook: 0, posts } },
                                RunRequest::Send { watcher, hook: 0 },
                            )
                        } else {
                            Run::next(n, watcher)
                        }
                    },
                    None => Run::next(n, watcher),
                }
            },
            (RunPhase::Sending { watcher, hook, posts }, RunEvent::Sent) => {
                if watcher < n && sc.watchers.get(watcher).1.1.len() > 0 && hook
                    < sc.watchers.get(watcher).1.1.len() - 1 {
                    (
                        Run { phase: RunPhase::Sending { watcher, hook: hook + 1, posts } },
                        RunRequest::Send { watcher, hook: hook + 1 },
                    )
                } else {
                    Run::next(n, watcher)
                }
            },
            (RunPhase::Finished, _) => (Run { phase: RunPhase::Finished }, RunRequest::Done),
            (p, _) => (Run { phase: p }, RunRequest::Done),
        }
    }

    fn next(n: usize, watcher: usize) -> (r: (Run, RunRequest))
        ensures
            r.0.stands() == (if watcher + 1 < n {
                RunPhaseView::Searching { watcher: (watcher + 1) as nat }
            } else {
                RunPhaseView::Finished
            }),
            r.1@ == (if watcher + 1 < n {
                RunRequestView::Search { watcher: (watcher + 1) as nat }
            } else {
                RunRequestView::Done
            }),
    {
        if watcher < n && watcher + 1 < n {
            (Run { phase: RunPhase::Searching { watcher: watcher + 1 } }, RunRequest::Search { watcher: watcher + 1 })
        } else {
            (Run { phase: RunPhase::Finished }, RunRequest::Done)
        }
    }
}

impl<D> Scraper<D> {
    /// Starts a run over all watchers: it searches the first, or ends at once
    /// where there is none.
    pub fn run(&self) -> (r: (Run, RunRequest))
        ensures
            (r.0.stands(), r.1@) == next_watcher(hook_counts(self.spec_watchers().watchers()), 0),
    {
        if self.watchers.len() > 0 {
            (Run { phase: RunPhase::Searching { watcher: 0 } }, RunRequest::Search { watcher: 0 })
        } else {
            (Run { phase: RunPhase::Finished }, RunRequest::Done)
        }
    }
}

/// The steps of a run from `phase` on `j` answers that the posts were sent:
/// where it then stands and what it last asked (`j` at least one).
pub open spec fn after_sends(counts: Seq<nat>, phase: RunPhaseView, j: nat) -> (RunPhaseView, RunRequestView)
    decreases j,
{
    let r = run_step_spec(counts, phase, RunEventView::Sent);
    if j <= 1 {
        r
    } else {
        after_sends(counts, r.0, (j - 1) as nat)
    }
}

proof fn lemma_after_sends(counts: Seq<nat>, w: nat, h: nat, posts: Seq<Post>, j: nat)
    requires
        w < counts.len(),
        1 <= j,
        h + j <= counts[w as int],
    ensures
        after_sends(counts, RunPhaseView::Sending { watcher: w, hook: h, posts }, j) == if h + j
            < counts[w as int] {
            (
                RunPhaseView::Sending { watcher: w, hook: h + j, posts },
                RunRequestView::Send { watcher: w, hook: h + j },
            )
        } else {
            next_watcher(counts, w + 1)
        },
    decreases j,
{
    if j > 1 {
        lemma_after_sends(counts, w, h + 1, posts, (j - 1) as nat);
    }
}

/// A watcher's new posts go to each of its hooks in turn, the same posts to
/// each, and only then is the next watcher searched (or the run ends); a
/// watcher without new posts, or without hooks, is passed over.
pub proof fn law_new_posts_go_to_every_hook(counts: Seq<nat>, w: nat, found: Option<Seq<Post>>)
    requires
        w < counts.len(),
    ensures
        ({
            let r0 = run_step_spec(counts, RunPhaseView::Searching { watcher: w }, RunEventView::Searched(found));
            match found {
                Some(posts) => if counts[w as int] > 0 {
                    &&& r0 == (
                        RunPhaseView::Sending { watcher: w, hook: 0, posts },
                        RunRequestView::Send { watcher: w, hook: 0 },
                    )
                    &&& forall|j: nat| 1 <= j < counts[w as int] ==> #[trigger] after_sends(counts, r0.0, j) == (
                        RunPhaseView::Sending { watcher: w, hook: j, posts },
                        RunRequestView::Send { watcher: w, hook: j },
                    )
                    &&& after_sends(counts, r0.0, counts[w as int]) == next_watcher(counts, w + 1)
                } else {
                    r0 == next_watcher(counts, w + 1)
                },
                None => r0 == next_watcher(counts, w + 1),
            }
        }),
{
    if let Some(posts) = found {
        if counts[w as int] > 0 {
            assert forall|j: nat| 1 <= j < counts[w as int] implies #[trigger] after_sends(
                counts,
                RunPhaseView::Sending { watcher: w, hook: 0, posts },
                j,
            ) == (RunPhaseView::Sending { watcher: w, hook: j, posts }, RunRequestView::Send { watcher: w, hook: j }) by {
                lemma_after_sends(counts, w, 0, posts, j);
            }
            lemma_after_sends(counts, w, 0, posts, counts[w as int]);
        }
    }
}

} // verus!
