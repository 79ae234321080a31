//! Configuration of a scraper by environment variables: `R34_LIMIT`,
//! `R34_DATABASE_POSTGRES` and, for each watcher id, `R34_WATCH_<ID>_TAGS` and
//! `R34_WATCH_<ID>_HOOK_<KIND>`.
use vstd::prelude::*;
use crate::assoc::Assoc;
use crate::text::str_eq;
use crate::hooks::{Discord, HookImpl, HookView};
use crate::text::{
    lemma_split_on_nonempty,
    parse_usize, parse_usize_fault, parse_usize_spec, IntFault, split_on, split_str, split_trimmed, strip_prefix_spec,
    strip_prefix_str, string_views, to_owned_all, to_upper_case, trimmed_nonempty, upper_case,
    all_ascii, ascii_upper,
    views_of,
};
use crate::watch::WatchMap;

verus! {

/// The database that the environment configures: a PostgreSQL connection
/// string.
pub enum DatabaseConfig {
    Postgres(String),
}

impl View for DatabaseConfig {
    type V = Seq<char>;

    open spec fn view(&self) -> Seq<char> {
        match self {
            DatabaseConfig::Postgres(dsn) => dsn@,
        }
    }
}

/// Why the environment does not configure a scraper.
#[derive(PartialEq, Eq, Debug)]
pub enum EnvError {
    /// `R34_LIMIT` is not a number, for this reason.
    InvalidLimit(IntFault),
    /// A `WATCH` variable is not `WATCH_<ID>_TAGS` or `WATCH_<ID>_HOOK_<KIND>`.
    InvalidWatchKey,
    /// A hook variable names no known kind of hook.
    UnsupportedHook,
    /// No database has been configured.
    NoDatabase,
    /// The watcher with this id has tags but no hook.
    NoHookForTags(String),
    /// No watcher has been configured.
    NoWatchers,
}

/// Why the environment does not configure a scraper, as a value.
pub enum EnvFault {
    InvalidLimit(IntFault),
    InvalidWatchKey,
    UnsupportedHook,
    NoDatabase,
    NoHookForTags(Seq<char>),
    NoWatchers,
}

impl View for EnvError {
    type V = EnvFault;

    open spec fn view(&self) -> EnvFault {
        match self {
            EnvError::InvalidLimit(f) => EnvFault::InvalidLimit(*f),
            EnvError::InvalidWatchKey => EnvFault::InvalidWatchKey,
            EnvError::UnsupportedHook => EnvFault::UnsupportedHook,
            EnvError::NoDatabase => EnvFault::NoDatabase,
            EnvError::NoHookForTags(id) => EnvFault::NoHookForTags(id@),
            EnvError::NoWatchers => EnvFault::NoWatchers,
        }
    }
}

/// One part of a watcher that a `WATCH` variable gives: its tags or its hook.
pub enum WatchPart {
    Tags(Vec<String>),
    Hook(HookImpl),
}

/// One part of a watcher, as a value.
pub enum WatchPartView {
    Tags(Seq<Seq<char>>),
    Hook(HookView),
}

impl View for WatchPart {
    type V = WatchPartView;

    open spec fn view(&self) -> WatchPartView {
        match self {
            WatchPart::Tags(t) => WatchPartView::Tags(string_views(t@)),
            WatchPart::Hook(h) => WatchPartView::Hook(h@),
        }
    }
}

/// The tags that a `TAGS` variable lists: its value split at each `,`, each
/// piece trimmed, the empty ones left out.
pub open spec fn watch_tags_spec(val: Seq<char>) -> Seq<Seq<char>> {
    trimmed_nonempty(split_on(val, ','))
}

/// The hook that a `HOOK` variable gives, from the key parts after `HOOK`.
pub open spec fn watch_hook_spec(keys: Seq<Seq<char>>, val: Seq<char>) -> Result<HookView, EnvFault> {
    let kind = if keys.len() > 0 {
        keys[0]
    } else {
        Seq::empty()
    };
    if kind == "DISCORD"@ {
        Ok(HookView::Discord { url: val })
    } else {
        Err(EnvFault::UnsupportedHook)
    }
}

/// The watcher id and part that a `WATCH` variable gives, from the key parts
/// after `WATCH`.
pub open spec fn watchpart_spec(keys: Seq<Seq<char>>, val: Seq<char>) -> Result<
    (Seq<char>, WatchPartView),
    EnvFault,
> {
    if keys.len() < 2 {
        Err(EnvFault::InvalidWatchKey)
    } else if keys[1] == "TAGS"@ {
        Ok((keys[0], WatchPartView::Tags(watch_tags_spec(val))))
    } else if keys[1] == "HOOK"@ {
        match watch_hook_spec(keys.skip(2), val) {
            Ok(h) => Ok((keys[0], WatchPartView::Hook(h))),
            Err(e) => Err(e),
        }
    } else {
        Err(EnvFault::InvalidWatchKey)
    }
}

/// The database that a `DATABASE` variable gives, from the key parts after
/// `DATABASE`: a PostgreSQL one for `POSTGRES`, else none.
pub open spec fn database_spec(keys: Seq<Seq<char>>, val: Seq<char>) -> Option<Seq<char>> {
    if keys.len() > 0 && keys[0] == "POSTGRES"@ {
        Some(val)
    } else {
        None
    }
}

/// A variable name in upper case: for an all-ASCII name, `a` to `z` made
/// `A` to `Z`; else as `str::to_uppercase` gives it.
pub open spec fn name_upper(name: Seq<char>) -> Seq<char> {
    if all_ascii(name) {
        ascii_upper(name)
    } else {
        upper_case(name)
    }
}

/// The key parts of an environment variable's name, where it starts with
/// `R34_`: the rest of the name in upper case, split at each `_`.
pub open spec fn env_key_spec(name: Seq<char>) -> Option<Seq<Seq<char>>> {
    match strip_prefix_spec(name, "R34_"@) {
        Some(rest) => Some(split_on(name_upper(rest), '_')),
        None => None,
    }
}

/// What the variables read so far configure.
pub struct EnvScan {
    pub db: Option<Seq<char>>,
    pub limit: Option<usize>,
    pub tags: Map<Seq<char>, Seq<Seq<char>>>,
    pub hooks: Map<Seq<char>, HookView>,
}

/// Nothing configured yet.
pub open spec fn empty_scan() -> EnvScan {
    EnvScan { db: None, limit: None, tags: Map::empty(), hooks: Map::empty() }
}

/// What one variable, by its key parts and value, does to the configuration.
pub open spec fn scan_entry(acc: EnvScan, key: Seq<Seq<char>>, val: Seq<char>) -> Result<
    EnvScan,
    EnvFault,
> {
    let first = key[0];
    if first == "LIMIT"@ {
        match parse_usize_spec(val) {
            Some(n) => Ok(EnvScan { limit: Some(n), ..acc }),
            None => Err(EnvFault::InvalidLimit(parse_usize_fault(val))),
        }
    } else if first == "DATABASE"@ {
        Ok(EnvScan { db: database_spec(key.skip(1), val), ..acc })
    } else if first == "WATCH"@ {
        match watchpart_spec(key.skip(1), val) {
            Err(e) => Err(e),
            Ok((id, WatchPartView::Tags(t))) => Ok(EnvScan { tags: acc.tags.insert(id, t), ..acc }),
            Ok((id, WatchPartView::Hook(h))) => Ok(EnvScan { hooks: acc.hooks.insert(id, h), ..acc }),
        }
    } else {
        Ok(acc)
    }
}

/// What one variable, by its name and value, does to the configuration: a
/// name that does not start with `R34_` changes nothing.
pub open spec fn feed_spec(acc: EnvScan, name: Seq<char>, val: Seq<char>) -> Result<EnvScan, EnvFault> {
    match env_key_spec(name) {
        None => Ok(acc),
        Some(key) => scan_entry(acc, key, val),
    }
}

/// The PostgreSQL connection string that a variable gives, where it is a
/// `DATABASE_POSTGRES` variable: the database to connect to as soon as it is
/// read.
pub open spec fn connects_to(name: Seq<char>, val: Seq<char>) -> Option<Seq<char>> {
    match env_key_spec(name) {
        Some(key) => if key[0] == "DATABASE"@ {
            database_spec(key.skip(1), val)
        } else {
            None
        },
        None => None,
    }
}

/// What a list of variables, in order, configures; the first that is wrong
/// decides the error.
pub open spec fn scan_vars(vars: Seq<(Seq<char>, Seq<char>)>) -> Result<EnvScan, EnvFault>
    decreases vars.len(),
{
    if vars.len() == 0 {
        Ok(empty_scan())
    } else {
        match scan_vars(vars.drop_last()) {
            Err(e) => Err(e),
            Ok(acc) => feed_spec(acc, vars.last().0, vars.last().1),
        }
    }
}

/// The views of a list of (name, value) variables.
pub open spec fn vars_view(vars: Seq<(String, String)>) -> Seq<(Seq<char>, Seq<char>)> {
    vars.map_values(|p: (String, String)| (p.0@, p.1@))
}

/// The watchers that a configuration defines: each id with tags, with those
/// tags and its one hook.
pub open spec fn scan_watchers(sc: EnvScan) -> Map<Seq<char>, (Seq<Seq<char>>, Seq<HookView>)> {
    Map::new(|id: Seq<char>| sc.tags.contains_key(id), |id: Seq<char>| (sc.tags[id], seq![sc.hooks[id]]))
}

/// Some watcher id has tags but no hook.
pub open spec fn lacks_hook(sc: EnvScan) -> bool {
    exists|id: Seq<char>| sc.tags.contains_key(id) && !sc.hooks.contains_key(id)
}

/// A scraper's configuration from the environment.
pub struct EnvConfig {
    pub database: DatabaseConfig,
    pub watchers: WatchMap,
    pub limit: usize,
}

/// What parsing the environment gives from what the variables configure: the
/// errors in the order in which they are checked (database, hooks, watchers),
/// else the configuration, with a limit of 100 where none is set.
pub open spec fn env_settles(sc: EnvScan, r: Result<EnvConfig, EnvError>) -> bool {
    if sc.db is None {
        r matches Err(e) && e@ == EnvFault::NoDatabase
    } else if lacks_hook(sc) {
        r matches Err(EnvError::NoHookForTags(id)) && sc.tags.contains_key(id@)
            && !sc.hooks.contains_key(id@)
    } else if sc.tags.dom().len() == 0 {
        r matches Err(e) && e@ == EnvFault::NoWatchers
    } else {
        r matches Ok(cfg) && cfg.database@ == sc.db.unwrap() && cfg.watchers.wf()
            && cfg.watchers@ == scan_watchers(sc) && cfg.limit == match sc.limit {
            Some(n) => n,
            None => 100,
        }
    }
}

/// The tags that a `TAGS` variable's value lists.
pub fn get_watch_tags(val: &str) -> (tags: Vec<String>)
    ensures
        string_views(tags@) == watch_tags_spec(val@),
{
    let parts = split_trimmed(val, ',');
    to_owned_all(&parts)
}

/// The hook that a `HOOK` variable gives, from the key parts after `HOOK`.
pub fn get_watch_hook(keys: &[String], val: &str) -> (hook: Result<HookImpl, EnvError>)
    ensures
        match watch_hook_spec(string_views(keys@), val@) {
            Ok(h) => hook matches Ok(x) && x@ == h,
            Err(e) => hook matches Err(x) && x@ == e,
        },
{
    let kind: &str = if keys.len() > 0 {
        keys[0].as_str()
    } else {
        ""
    };
    proof {
        reveal_strlit("");
        if keys.len() > 0 {
            assert(string_views(keys@)[0] == keys@[0]@);
        }
        assert(kind@ == (if string_views(keys@).len() > 0 {
            string_views(keys@)[0]
        } else {
            Seq::empty()
        }));
    }
    if str_eq(kind, "DISCORD") {
        Ok(HookImpl::Discord(Discord::new(val)))
    } else {
        Err(EnvError::UnsupportedHook)
    }
}

/// The watcher id and part that a `WATCH` variable gives, from the key parts
/// after `WATCH`.
pub fn get_watchpart(keys: &[String], val: &str) -> (part: Result<(String, WatchPart), EnvError>)
    ensures
        match watchpart_spec(string_views(keys@), val@) {
            Ok((id, p)) => part matches Ok(x) && x.0@ == id && x.1@ == p,
            Err(e) => part matches Err(x) && x@ == e,
        },
{
    if keys.len() < 2 {
        return Err(EnvError::InvalidWatchKey);
    }
    let uid = &keys[0];
    let typ = keys[1].as_str();
    if str_eq(typ, "TAGS") {
        Ok((uid.clone(), WatchPart::Tags(get_watch_tags(val))))
    } else if str_eq(typ, "HOOK") {
        let rest = keys.split_at(2).1;
        assert(string_views(rest@) =~= string_views(keys@).skip(2));
        match get_watch_hook(rest, val) {
            Ok(h) => Ok((uid.clone(), WatchPart::Hook(h))),
            Err(e) => Err(e),
        }
    } else {
        Err(EnvError::InvalidWatchKey)
    }
}

/// The database that a `DATABASE` variable gives, from the key parts after
/// `DATABASE`.
pub fn get_database(keys: &[String], val: &str) -> (db: Option<DatabaseConfig>)
    ensures
        match database_spec(string_views(keys@), val@) {
            Some(dsn) => db matches Some(x) && x@ == dsn,
            None => db is None,
        },
{
    if keys.len() > 0 && str_eq(keys[0].as_str(), "POSTGRES") {
        Some(DatabaseConfig::Postgres(val.to_owned()))
    } else {
        None
    }
}

/// The key parts of a variable's name, where it starts with `R34_`.
pub fn env_key(name: &str) -> (key: Option<Vec<String>>)
    ensures
        match env_key_spec(name@) {
            Some(k) => key matches Some(v) && string_views(v@) == k,
            None => key is None,
        },
{
    match strip_prefix_str(name, "R34_") {
        None => None,
        Some(rest) => {
            let upper = to_upper_case(rest);
            let pieces = split_str(upper.as_str(), '_');
            Some(to_owned_all(&pieces))
        },
    }
}

/// What the variables read so far configure, from the values that hold it.
pub open spec fn scan_of(
    db: Option<DatabaseConfig>,
    limit: Option<usize>,
    tags: Assoc<Vec<String>>,
    hooks: Assoc<HookImpl>,
) -> EnvScan {
    EnvScan {
        db: match db {
            Some(d) => Some(d@),
            None => None,
        },
        limit,
        tags: tags@.map_values(|v: Vec<String>| string_views(v@)),
        hooks: hooks@.map_values(|h: HookImpl| h@),
    }
}

proof fn lemma_scan_error_stays(vars: Seq<(Seq<char>, Seq<char>)>, i: int)
    requires
        0 <= i <= vars.len(),
        scan_vars(vars.take(i)) is Err,
    ensures
        scan_vars(vars) == scan_vars(vars.take(i)),
    decreases vars.len() - i,
{
    if i < vars.len() {
        assert(vars.take(i + 1).drop_last() =~= vars.take(i));
        lemma_scan_error_stays(vars, i + 1);
    } else {
        assert(vars.take(i) =~= vars);
    }
}

/// A scan of environment variables, one after another, and what they have
/// configured so far.
pub struct EnvScanner {
    db: Option<DatabaseConfig>,
    limit: Option<usize>,
    tags: Assoc<Vec<String>>,
    hooks: Assoc<HookImpl>,
}

impl View for EnvScanner {
    type V = EnvScan;

    closed spec fn view(&self) -> EnvScan {
        scan_of(self.db, self.limit, self.tags, self.hooks)
    }
}

impl EnvScanner {
    /// No watcher id is kept twice.
    pub closed spec fn wf(&self) -> bool {
        self.tags.wf() && self.hooks.wf()
    }

    /// A scan that has read no variable.
    pub fn new() -> (s: EnvScanner)
        ensures
            s.wf(),
            s@ == empty_scan(),
    {
        let s = EnvScanner { db: None, limit: None, tags: Assoc::new(), hooks: Assoc::new() };
        assert(s.tags@.map_values(|v: Vec<String>| string_views(v@)) =~= Map::empty());
        assert(s.hooks@.map_values(|h: HookImpl| h@) =~= Map::empty());
        s
    }

    /// Reads one variable. Where it is a `DATABASE_POSTGRES` variable, its
    /// database is handed back, to be connected to before the next variable
    /// is read.
    pub fn feed(&mut self, name: &str, val: &str) -> (r: Result<Option<DatabaseConfig>, EnvError>)
        requires
            old(self).wf(),
        ensures
            final(self).wf(),
            match feed_spec(old(self)@, name@, val@) {
                Err(e) => r matches Err(x) && x@ == e,
                Ok(sc) => final(self)@ == sc && match connects_to(name@, val@) {
                    Some(dsn) => r matches Ok(Some(d)) && d@ == dsn,
                    None => r matches Ok(None),
                },
            },
    {
        let ghost acc = self@;
        proof {
            reveal_strlit("LIMIT");
            reveal_strlit("DATABASE");
            reveal_strlit("WATCH");
        }
        let mut connect: Option<DatabaseConfig> = None;
        match env_key(name) {
            None => {},
            Some(key) => {
                proof {
                    lemma_split_on_nonempty(name_upper(strip_prefix_spec(name@, "R34_"@).unwrap()), '_');
                    assert(string_views(key@)[0] == key@[0]@);
                }
                let first = key[0].as_str();
                let rest = key.as_slice().split_at(1).1;
                assert(string_views(rest@) =~= string_views(key@).skip(1));
                if str_eq(first, "LIMIT") {
                    match parse_usize(val) {
                        Ok(n) => {
                            self.limit = Some(n);
                        },
                        Err(f) => {
                            return Err(EnvError::InvalidLimit(f));
                        },
                    }
                } else if str_eq(first, "DATABASE") {
                    self.db = get_database(rest, val);
                    connect = get_database(rest, val);
                } else if str_eq(first, "WATCH") {
                    match get_watchpart(rest, val) {
                        Err(e) => {
                            return Err(e);
                        },
                        Ok((uid, WatchPart::Tags(t))) => {
                            let ghost k = uid@;
                            let ghost tv = string_views(t@);
                            self.tags.insert(uid, t);
                            assert(self.tags@.map_values(|v: Vec<String>| string_views(v@)) =~= acc.tags.insert(k, tv));
                        },
                        Ok((uid, WatchPart::Hook(h))) => {
                            let ghost k = uid@;
                            let ghost hv = h@;
                            self.hooks.insert(uid, h);
                            assert(self.hooks@.map_values(|h: HookImpl| h@) =~= acc.hooks.insert(k, hv));
                        },
                    }
                }
            },
        }
        Ok(connect)
    }

    /// What the variables read configure: the first missing part is the
    /// error, else the scraper's configuration.
    #[verifier::loop_isolation(false)]
    pub fn finish(self) -> (cfg: Result<EnvConfig, EnvError>)
        requires
            self.wf(),
        ensures
            env_settles(self@, cfg),
    {
        let ghost sc = self@;
        let EnvScanner { db, limit, tags, hooks } = self;
        assert(sc == scan_of(db, limit, tags, hooks));
        let database = match db {
            None => {
                return Err(EnvError::NoDatabase);
            },
            Some(d) => d,
        };
        proof {
            tags.lemma_entries();
            hooks.lemma_entries();
        }
        let mut watchers = WatchMap::new();
        let mut j: usize = 0;
        while j < tags.len()
            invariant
                tags.wf(),
                hooks.wf(),
                sc.tags == tags@.map_values(|v: Vec<String>| string_views(v@)),
                sc.hooks == hooks@.map_values(|h: HookImpl| h@),
                sc.db is Some,
                j <= tags.entries().len(),
                watchers.wf(),
                forall|k: int| 0 <= k < j ==> hooks@.contains_key(#[trigger] tags.entries()[k].0@),
                watchers@ == Map::new(
                    |id: Seq<char>| exists|k: int| 0 <= k < j && #[trigger] tags.entries()[k].0@ == id,
                    |id: Seq<char>| (sc.tags[id], seq![sc.hooks[id]]),
                ),
            decreases tags.entries().len() - j,
        {
            proof {
                tags.lemma_entries();
            }
            let entry = tags.entry(j);
            let uid = &entry.0;
            match hooks.get(uid.as_str()) {
                None => {
                    proof {
                        assert(tags@.contains_key(uid@));
                        assert(sc.tags.contains_key(uid@));
                        assert(!sc.hooks.contains_key(uid@));
                        assert(lacks_hook(sc));
                    }
                    return Err(EnvError::NoHookForTags(uid.clone()));
                },
                Some(h) => {
                    let ghost before = watchers@;
                    let t2 = entry.1.clone();
                    assert(string_views(t2@) =~= string_views(entry.1@));
                    let hs = vec![h.clone()];
                    assert(crate::hooks::hook_views(hs@) =~= seq![h@]);
                    watchers.insert(uid.clone(), t2, hs);
                    assert(watchers@ =~= Map::new(
                        |id: Seq<char>| exists|k: int| 0 <= k < j + 1 && #[trigger] tags.entries()[k].0@ == id,
                        |id: Seq<char>| (sc.tags[id], seq![sc.hooks[id]]),
                    )) by {
                        assert forall|id: Seq<char>| (exists|k: int| 0 <= k < j + 1 && #[trigger] tags.entries()[k].0@ == id)
                            <==> (before.contains_key(id) || id == uid@) by {
                            if id == uid@ {
                                assert(tags.entries()[j as int].0@ == id);
                            }
                        }
                    }
                },
            }
            j = j + 1;
        }
        proof {
            assert(!lacks_hook(sc)) by {
                if lacks_hook(sc) {
                    let id = choose|id: Seq<char>| sc.tags.contains_key(id) && !sc.hooks.contains_key(id);
                    let k = choose|k: int| 0 <= k < tags.entries().len() && #[trigger] tags.entries()[k].0@ == id;
                }
            }
            assert(watchers@ =~= scan_watchers(sc)) by {
                assert forall|id: Seq<char>| (exists|k: int| 0 <= k < j && #[trigger] tags.entries()[k].0@ == id)
                    <==> sc.tags.contains_key(id) by {
                    if sc.tags.contains_key(id) {
                        let k = choose|k: int| 0 <= k < tags.entries().len() && #[trigger] tags.entries()[k].0@ == id;
                    }
                }
            }
            assert(sc.tags.dom() =~= tags@.dom());
        }
        if watchers.is_empty() {
            proof {
                assert(watchers@.dom() =~= sc.tags.dom());
            }
            return Err(EnvError::NoWatchers);
        }
        proof {
            if sc.tags.dom().len() == 0 {
                assert(sc.tags.dom() =~= Set::empty());
                assert(watchers@ =~= Map::empty());
            }
        }
        let limit = match limit {
            Some(n) => n,
            None => 100,
        };
        Ok(EnvConfig { database, watchers, limit })
    }
}

/// A scraper's configuration from environment variables, given as (name,
/// value) pairs in the order in which they are read.
pub fn parse_env(vars: &[(String, String)]) -> (cfg: Result<EnvConfig, EnvError>)
    ensures
        match scan_vars(vars_view(vars@)) {
            Err(e) => cfg matches Err(x) && x@ == e,
            Ok(sc) => env_settles(sc, cfg),
        },
{
    let ghost vv = vars_view(vars@);
    let mut scan = EnvScanner::new();
    let mut i: usize = 0;
    assert(vv.take(0) =~= Seq::<(Seq<char>, Seq<char>)>::empty());
    while i < vars.len()
        invariant
            i <= vars.len(),
            vv == vars_view(vars@),
            scan.wf(),
            scan_vars(vv.take(i as int)) == Ok::<EnvScan, EnvFault>(scan@),
        decreases vars.len() - i,
    {
        let ghost next = vv.take(i + 1);
        assert(next.drop_last() =~= vv.take(i as int));
        assert(next.last() == (vars@[i as int].0@, vars@[i as int].1@));
        match scan.feed(vars[i].0.as_str(), vars[i].1.as_str()) {
            Err(e) => {
                proof {
                    lemma_scan_error_stays(vv, i + 1);
                }
                return Err(e);
            },
            Ok(_) => {},
        }
        i = i + 1;
    }
    assert(vv.take(vars.len() as int) =~= vv);
    scan.finish()
}

/// Whether a variable is passed over: its name does not start with `R34_`,
/// or the first key part is none of `LIMIT`, `DATABASE` and `WATCH`.
pub open spec fn passed_over(name: Seq<char>) -> bool {
    match env_key_spec(name) {
        None => true,
        Some(key) => key[0] != "LIMIT"@ && key[0] != "DATABASE"@ && key[0] != "WATCH"@,
    }
}

/// Whether two variable names are the same to the scan: neither starts with
/// `R34_`, or both do and the rests are ASCII and differ at most in the case
/// of their letters.
pub open spec fn same_name(a: Seq<char>, b: Seq<char>) -> bool {
    match (strip_prefix_spec(a, "R34_"@), strip_prefix_spec(b, "R34_"@)) {
        (None, None) => true,
        (Some(x), Some(y)) => all_ascii(x) && all_ascii(y) && ascii_upper(x) == ascii_upper(y),
        _ => false,
    }
}

/// A variable that is passed over, wherever it stands among the others,
/// changes nothing: the configuration, or the error, is the same.
pub proof fn law_other_vars_passed_over(
    vars: Seq<(Seq<char>, Seq<char>)>,
    i: int,
    name: Seq<char>,
    val: Seq<char>,
)
    requires
        0 <= i <= vars.len(),
        passed_over(name),
    ensures
        scan_vars(vars.insert(i, (name, val))) == scan_vars(vars),
    decreases vars.len(),
{
    let w = vars.insert(i, (name, val));
    if i == vars.len() {
        assert(w.drop_last() =~= vars);
        assert(w.last() == (name, val));
    } else {
        law_other_vars_passed_over(vars.drop_last(), i, name, val);
        assert(w.drop_last() =~= vars.drop_last().insert(i, (name, val)));
        assert(w.last() == vars.last());
    }
}

/// Changing the case of the letters in the ASCII variable names after
/// `R34_` changes nothing: the configuration, or the error, is the same.
pub proof fn law_name_case_ignored(vars1: Seq<(Seq<char>, Seq<char>)>, vars2: Seq<(Seq<char>, Seq<char>)>)
    requires
        vars1.len() == vars2.len(),
        forall|i: int| 0 <= i < vars1.len() ==> (#[trigger] vars1[i]).1 == vars2[i].1 && same_name(vars1[i].0, vars2[i].0),
    ensures
        scan_vars(vars1) == scan_vars(vars2),
    decreases vars1.len(),
{
    if vars1.len() > 0 {
        let d1 = vars1.drop_last();
        let d2 = vars2.drop_last();
        assert forall|i: int| 0 <= i < d1.len() implies (#[trigger] d1[i]).1 == d2[i].1 && same_name(d1[i].0, d2[i].0) by {
            assert(d1[i] == vars1[i]);
            assert(d2[i] == vars2[i]);
        }
        law_name_case_ignored(d1, d2);
        let n = vars1.len() - 1;
        assert(vars1[n] == vars1.last());
        assert(vars2[n] == vars2.last());
        assert(env_key_spec(vars1.last().0) == env_key_spec(vars2.last().0));
    }
}

/// The part of the configuration that a variable sets: the limit, the
/// database, the tags or the hook of a watcher id, or nothing.
pub enum Slot {
    Limit,
    Database,
    Tags(Seq<char>),
    Hook(Seq<char>),
    Nothing,
}

/// The part of the configuration that the variable `name` sets.
pub open spec fn slot(name: Seq<char>) -> Slot {
    match env_key_spec(name) {
        None => Slot::Nothing,
        Some(key) => if key[0] == "LIMIT"@ {
            Slot::Limit
        } else if key[0] == "DATABASE"@ {
            Slot::Database
        } else if key[0] == "WATCH"@ && key.len() >= 3 && key[2] == "TAGS"@ {
            Slot::Tags(key[1])
        } else if key[0] == "WATCH"@ && key.len() >= 3 && key[2] == "HOOK"@ {
            Slot::Hook(key[1])
        } else {
            Slot::Nothing
        },
    }
}

/// Reading two variables, one after the other.
pub open spec fn feed_two(acc: EnvScan, a: (Seq<char>, Seq<char>), b: (Seq<char>, Seq<char>)) -> Result<
    EnvScan,
    EnvFault,
> {
    match feed_spec(acc, a.0, a.1) {
        Err(e) => Err(e),
        Ok(x) => feed_spec(x, b.0, b.1),
    }
}

/// What reading a variable does, by the part of the configuration it sets.
pub open spec fn feed_effect(acc: EnvScan, name: Seq<char>, val: Seq<char>) -> EnvScan {
    let key = env_key_spec(name)->Some_0;
    match slot(name) {
        Slot::Limit => EnvScan { limit: parse_usize_spec(val), ..acc },
        Slot::Database => EnvScan { db: database_spec(key.skip(1), val), ..acc },
        Slot::Tags(id) => EnvScan { tags: acc.tags.insert(id, watch_tags_spec(val)), ..acc },
        Slot::Hook(id) => EnvScan { hooks: acc.hooks.insert(id, watch_hook_spec(key.skip(3), val)->Ok_0), ..acc },
        Slot::Nothing => acc,
    }
}

proof fn lemma_feed_error_fixed(acc: EnvScan, other: EnvScan, name: Seq<char>, val: Seq<char>)
    ensures
        feed_spec(acc, name, val) is Err ==> feed_spec(other, name, val) == feed_spec(acc, name, val),
        feed_spec(acc, name, val) is Ok ==> feed_spec(other, name, val) is Ok,
        feed_spec(acc, name, val) is Ok ==> feed_spec(acc, name, val) == Ok::<EnvScan, EnvFault>(feed_effect(acc, name, val)),
{
    match env_key_spec(name) {
        None => {},
        Some(key) => {
            lemma_split_on_nonempty(name_upper(strip_prefix_spec(name, "R34_"@)->Some_0), '_');
            if key[0] == "LIMIT"@ {
            } else if key[0] == "DATABASE"@ {
            } else if key[0] == "WATCH"@ {
                let keys = key.skip(1);
                if keys.len() >= 2 {
                    assert(keys[1] == key[2]);
                    assert(keys[0] == key[1]);
                    assert(keys.skip(2) =~= key.skip(3));
                }
            }
        },
    }
}

/// Two variables that set different parts of the configuration can be read
/// in either order, where at most one of them is wrong: a watcher's hook is
/// kept whether it comes before or after the watcher's tags.
pub proof fn law_two_vars_commute(acc: EnvScan, a: (Seq<char>, Seq<char>), b: (Seq<char>, Seq<char>))
    requires
        slot(a.0) is Nothing || slot(b.0) is Nothing || slot(a.0) != slot(b.0),
        feed_spec(acc, a.0, a.1) is Ok || feed_spec(acc, b.0, b.1) is Ok,
    ensures
        feed_two(acc, a, b) == feed_two(acc, b, a),
{
    lemma_feed_error_fixed(acc, acc, a.0, a.1);
    lemma_feed_error_fixed(acc, acc, b.0, b.1);
    if feed_spec(acc, a.0, a.1) is Ok && feed_spec(acc, b.0, b.1) is Ok {
        let xa = feed_effect(acc, a.0, a.1);
        let xb = feed_effect(acc, b.0, b.1);
        lemma_feed_error_fixed(acc, xa, b.0, b.1);
        lemma_feed_error_fixed(acc, xb, a.0, a.1);
        lemma_feed_error_fixed(xa, xa, b.0, b.1);
        lemma_feed_error_fixed(xb, xb, a.0, a.1);
        let ab = feed_effect(xa, b.0, b.1);
        let ba = feed_effect(xb, a.0, a.1);
        assert(ab.tags =~= ba.tags);
        assert(ab.hooks =~= ba.hooks);
        assert(ab == ba);
    } else if feed_spec(acc, a.0, a.1) is Err {
        let xb = feed_effect(acc, b.0, b.1);
        lemma_feed_error_fixed(acc, xb, a.0, a.1);
    } else {
        let xa = feed_effect(acc, a.0, a.1);
        lemma_feed_error_fixed(acc, xa, b.0, b.1);
    }
}

/// Swapping two neighbouring variables that set different parts of the
/// configuration, at most one of them wrong, changes nothing: the
/// configuration, or the error, is the same.
pub proof fn law_neighbour_vars_commute(vars: Seq<(Seq<char>, Seq<char>)>, i: int)
    requires
        0 <= i,
        i + 1 < vars.len(),
        slot(vars[i].0) is Nothing || slot(vars[i + 1].0) is Nothing || slot(vars[i].0) != slot(vars[i + 1].0),
        feed_spec(empty_scan(), vars[i].0, vars[i].1) is Ok || feed_spec(empty_scan(), vars[i + 1].0, vars[i + 1].1) is Ok,
    ensures
        scan_vars(vars.update(i, vars[i + 1]).update(i + 1, vars[i])) == scan_vars(vars),
    decreases vars.len(),
{
    let w = vars.update(i, vars[i + 1]).update(i + 1, vars[i]);
    if vars.len() == i + 2 {
        let p = vars.drop_last().drop_last();
        assert(w.drop_last().drop_last() =~= p);
        assert(w.drop_last().last() == vars[i + 1]);
        assert(w.last() == vars[i]);
        assert(vars.drop_last().last() == vars[i]);
        assert(vars.last() == vars[i + 1]);
        match scan_vars(p) {
            Err(e) => {
                assert(scan_vars(vars.drop_last()) == Err::<EnvScan, EnvFault>(e));
                assert(scan_vars(w.drop_last()) == Err::<EnvScan, EnvFault>(e));
            },
            Ok(acc) => {
                lemma_feed_error_fixed(empty_scan(), acc, vars[i].0, vars[i].1);
                lemma_feed_error_fixed(empty_scan(), acc, vars[i + 1].0, vars[i + 1].1);
                law_two_vars_commute(acc, vars[i], vars[i + 1]);
                assert(scan_vars(vars.drop_last()) == feed_spec(acc, vars[i].0, vars[i].1));
                assert(scan_vars(vars) == feed_two(acc, vars[i], vars[i + 1]));
                assert(scan_vars(w.drop_last()) == feed_spec(acc, vars[i + 1].0, vars[i + 1].1));
                assert(scan_vars(w) == feed_two(acc, vars[i + 1], vars[i]));
            },
        }
    } else {
        law_neighbour_vars_commute(vars.drop_last(), i);
        assert(w.drop_last() =~= vars.drop_last().update(i, vars[i + 1]).update(i + 1, vars[i]));
        assert(w.last() == vars.last());
    }
}

/// The text that reports why a text is not a number: the text of
/// `std::num::ParseIntError` for that reason.
pub open spec fn int_fault_message(f: IntFault) -> Seq<char> {
    match f {
        IntFault::Empty => "cannot parse integer from empty string"@,
        IntFault::InvalidDigit => "invalid digit found in string"@,
        IntFault::PosOverflow => "number too large to fit in target type"@,
    }
}

/// The text that reports an environment error.
pub open spec fn env_fault_message(f: EnvFault) -> Seq<char> {
    match f {
        EnvFault::InvalidLimit(f) => int_fault_message(f),
        EnvFault::InvalidWatchKey => "WATCH environment key must be in format WATCH_<ID>_TAGS or WATCH_<ID>_HOOK_<HookImpl>"@,
        EnvFault::UnsupportedHook => "unsupported or invalid hook type"@,
        EnvFault::NoDatabase => "No database has been configured"@,
        EnvFault::NoHookForTags(id) => "No hook defined for tags in ID "@ + id,
        EnvFault::NoWatchers => "No watchers have been specified"@,
    }
}

impl EnvError {
    /// The text that reports this error.
    pub fn message(&self) -> (m: String)
        ensures
            m@ == env_fault_message(self@),
    {
        match self {
            EnvError::InvalidLimit(IntFault::Empty) => "cannot parse integer from empty string".to_owned(),
            EnvError::InvalidLimit(IntFault::InvalidDigit) => "invalid digit found in string".to_owned(),
            EnvError::InvalidLimit(IntFault::PosOverflow) => "number too large to fit in target type".to_owned(),
            EnvError::InvalidWatchKey => "WATCH environment key must be in format WATCH_<ID>_TAGS or WATCH_<ID>_HOOK_<HookImpl>".to_owned(),
            EnvError::UnsupportedHook => "unsupported or invalid hook type".to_owned(),
            EnvError::NoDatabase => "No database has been configured".to_owned(),
            EnvError::NoHookForTags(id) => {
                let mut m = "No hook defined for tags in ID ".to_owned();
                m.append(id.as_str());
                m
            },
            EnvError::NoWatchers => "No watchers have been specified".to_owned(),
        }
    }
}

} // verus!
