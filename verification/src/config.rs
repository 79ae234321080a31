//! The static and the dynamic configuration of the runner.
use vstd::prelude::*;
use crate::hooks::{HookImpl, HookView, hook_views};
use crate::text::{join, join_strings, law_split_join, split_on, split_str, str_eq, string_views, views_of};
use crate::watch::WatchMap;

verus! {

/// One watch target of the dynamic configuration: the tags it searches for,
/// the hook its new posts go to, and an optional id.
pub struct Target {
    pub id: Option<String>,
    pub tags: Vec<String>,
    pub hook: HookImpl,
}

/// The configuration that is read once at start.
pub struct StaticConfig {
    pub storage_dir: String,
    pub log_level: String,
    pub schedule: Option<String>,
    pub dynamic_config_path: Option<String>,
}

/// The configuration that is read at each run.
pub struct DynamicConfig {
    pub user_id: String,
    pub api_token: String,
    pub default_tags: Option<Vec<String>>,
    pub targets: Vec<Target>,
    pub limit: usize,
}

/// The storage file used where the static configuration names none.
pub fn default_storage_dir() -> (dir: String)
    ensures
        dir@ == "storage.json"@,
{
    "storage.json".to_owned()
}

/// The log level used where the static configuration names none.
pub fn default_log_level() -> (level: String)
    ensures
        level@ == "info"@,
{
    "info".to_owned()
}

/// The most posts a watcher collects in one run where the dynamic
/// configuration gives no limit.
pub fn default_limit() -> (limit: usize)
    ensures
        limit == 100,
{
    100
}

/// The id of a target: its own, or else its tags joined by `,`.
pub open spec fn target_id(t: Target) -> Seq<char> {
    match t.id {
        Some(id) => id@,
        None => join(string_views(t.tags@), ","@),
    }
}

/// The watch map that a list of targets gives: each target's id mapped to its
/// tags and its one hook, a later target taking the place of an earlier one
/// with the same id.
pub open spec fn targets_map(ts: Seq<Target>) -> Map<Seq<char>, (Seq<Seq<char>>, Seq<HookView>)>
    decreases ts.len(),
{
    if ts.len() == 0 {
        Map::empty()
    } else {
        targets_map(ts.drop_last()).insert(
            target_id(ts.last()),
            (string_views(ts.last().tags@), seq![ts.last().hook@]),
        )
    }
}

impl DynamicConfig {
    /// The watchers that the targets define.
    pub fn get_watch_map(&self) -> (map: WatchMap)
        ensures
            map.wf(),
            map@ == targets_map(self.targets@),
    {
        let mut map = WatchMap::new();
        let mut i: usize = 0;
        assert(self.targets@.take(0) =~= Seq::<Target>::empty());
        while i < self.targets.len()
            invariant
                i <= self.targets.len(),
                map.wf(),
                map@ == targets_map(self.targets@.take(i as int)),
            decreases self.targets.len() - i,
        {
            let target = &self.targets[i];
            let id = match &target.id {
                Some(id) => id.clone(),
                None => join_strings(target.tags.as_slice(), ","),
            };
            let tags = target.tags.clone();
            assert(string_views(tags@) =~= string_views(target.tags@));
            let hooks = vec![target.hook.clone()];
            assert(hook_views(hooks@) =~= seq![target.hook@]);
            map.insert(id, tags, hooks);
            assert(self.targets@.take(i + 1).drop_last() =~= self.targets@.take(i as int));
            i = i + 1;
        }
        assert(self.targets@.take(self.targets.len() as int) =~= self.targets@);
        map
    }
}

/// Whether a path component is `.`.
pub open spec fn is_cur_dir(c: Seq<char>) -> bool {
    c.len() == 1 && c[0] == '.'
}

/// Whether a path component is `..`.
pub open spec fn is_parent_dir(c: Seq<char>) -> bool {
    c.len() == 2 && c[0] == '.' && c[1] == '.'
}

/// The last component of a `/`-separated path that is neither empty nor `.`.
pub open spec fn last_component(pieces: Seq<Seq<char>>) -> Option<Seq<char>>
    decreases pieces.len(),
{
    if pieces.len() == 0 {
        None
    } else if pieces.last().len() > 0 && !is_cur_dir(pieces.last()) {
        Some(pieces.last())
    } else {
        last_component(pieces.drop_last())
    }
}

/// The file name of a path (`Path::file_name`): its last component, unless
/// that is `..` or the path has none.
pub open spec fn path_file_name(p: Seq<char>) -> Option<Seq<char>> {
    match last_component(split_on(p, '/')) {
        Some(c) => if is_parent_dir(c) {
            None
        } else {
            Some(c)
        },
        None => None,
    }
}

/// The extension of a file name: the text after its last `.`, where there is
/// one and something stands before it.
pub open spec fn name_extension(name: Seq<char>) -> Option<Seq<char>> {
    let parts = split_on(name, '.');
    if parts.len() < 2 || (parts.len() == 2 && parts[0].len() == 0) {
        None
    } else {
        Some(parts.last())
    }
}

/// The extension of a path (`Path::extension`).
pub open spec fn path_extension(p: Seq<char>) -> Option<Seq<char>> {
    match path_file_name(p) {
        Some(name) => name_extension(name),
        None => None,
    }
}

/// The format of a configuration file.
#[derive(PartialEq, Eq, Debug, Clone, Copy)]
pub enum ConfigFormat {
    Yaml,
    Toml,
}

/// The file's extension is not one of a known configuration format.
#[derive(PartialEq, Eq, Debug, Clone, Copy)]
pub enum ConfigError {
    InvalidConfigFileType,
}

/// The format that a configuration file's extension names: `yml` or `yaml`
/// for YAML, `toml` for TOML; a path without an extension counts as one with
/// an empty one.
pub open spec fn config_format_spec(path: Seq<char>) -> Result<ConfigFormat, ConfigError> {
    let ext = match path_extension(path) {
        Some(e) => e,
        None => Seq::empty(),
    };
    if ext == "yml"@ || ext == "yaml"@ {
        Ok(ConfigFormat::Yaml)
    } else if ext == "toml"@ {
        Ok(ConfigFormat::Toml)
    } else {
        Err(ConfigError::InvalidConfigFileType)
    }
}

fn last_component_of<'a>(pieces: &Vec<&'a str>) -> (c: Option<&'a str>)
    ensures
        match c {
            Some(c) => last_component(views_of(pieces@)) == Some(c@),
            None => last_component(views_of(pieces@)) is None,
        },
{
    let mut i: usize = pieces.len();
    assert(views_of(pieces@).take(i as int) =~= views_of(pieces@));
    while i > 0
        invariant
            i <= pieces.len(),
            last_component(views_of(pieces@)) == last_component(views_of(pieces@).take(i as int)),
        decreases i,
    {
        let p = pieces[i - 1];
        let n = p.unicode_len();
        let ghost t = views_of(pieces@).take(i as int);
        assert(t.last() == p@);
        assert(t.drop_last() =~= views_of(pieces@).take(i - 1));
        if n > 0 && !(n == 1 && p.get_char(0) == '.') {
            return Some(p);
        }
        i = i - 1;
    }
    assert(views_of(pieces@).take(0) =~= Seq::<Seq<char>>::empty());
    None
}

/// The extension of `path` (`Path::extension`).
pub fn extension_of(path: &str) -> (ext: Option<&str>)
    ensures
        match ext {
            Some(e) => path_extension(path@) == Some(e@),
            None => path_extension(path@) is None,
        },
{
    let pieces = split_str(path, '/');
    let name = match last_component_of(&pieces) {
        None => return None,
        Some(c) => c,
    };
    let n = name.unicode_len();
    if n == 2 && name.get_char(0) == '.' && name.get_char(1) == '.' {
        return None;
    }
    let parts = split_str(name, '.');
    if parts.len() < 2 || (parts.len() == 2 && parts[0].unicode_len() == 0) {
        assert(views_of(parts@).len() == parts@.len());
        return None;
    }
    assert(views_of(parts@)[0] == parts@[0]@);
    Some(parts[parts.len() - 1])
}

/// The format of the configuration file at `path`, by its extension.
pub fn config_format(path: &str) -> (format: Result<ConfigFormat, ConfigError>)
    ensures
        format == config_format_spec(path@),
{
    let ext = match extension_of(path) {
        Some(e) => e,
        None => "",
    };
    let ghost spec_ext = match path_extension(path@) {
        Some(e) => e,
        None => Seq::empty(),
    };
    proof {
        reveal_strlit("");
        assert(ext@ == spec_ext);
        reveal_strlit("yml");
        reveal_strlit("yaml");
        reveal_strlit("toml");
    }
    if str_eq(ext, "yml") || str_eq(ext, "yaml") {
        Ok(ConfigFormat::Yaml)
    } else if str_eq(ext, "toml") {
        Ok(ConfigFormat::Toml)
    } else {
        Err(ConfigError::InvalidConfigFileType)
    }
}

/// Every target's id is a watcher of the map; a watcher's tags and hook are
/// those of the last target with its id, and no other id is one.
pub proof fn law_watch_map_targets(ts: Seq<Target>)
    ensures
        forall|i: int| 0 <= i < ts.len() ==> targets_map(ts).contains_key(#[trigger] target_id(ts[i])),
        forall|i: int|
            0 <= i < ts.len() && (forall|j: int| i < j < ts.len() ==> target_id(ts[j]) != target_id(ts[i]))
                ==> targets_map(ts)[#[trigger] target_id(ts[i])] == (string_views(ts[i].tags@), seq![ts[i].hook@]),
        forall|id: Seq<char>| targets_map(ts).contains_key(id) ==> exists|i: int|
            0 <= i < ts.len() && #[trigger] target_id(ts[i]) == id,
    decreases ts.len(),
{
    if ts.len() > 0 {
        let d = ts.drop_last();
        law_watch_map_targets(d);
        assert forall|i: int| 0 <= i < ts.len() implies targets_map(ts).contains_key(#[trigger] target_id(ts[i])) by {
            if i < ts.len() - 1 {
                assert(d[i] == ts[i]);
            }
        }
        assert forall|i: int|
            0 <= i < ts.len() && (forall|j: int| i < j < ts.len() ==> target_id(ts[j]) != target_id(ts[i]))
            implies targets_map(ts)[#[trigger] target_id(ts[i])] == (string_views(ts[i].tags@), seq![ts[i].hook@]) by {
            if i < ts.len() - 1 {
                assert(d[i] == ts[i]);
                assert(target_id(ts[ts.len() - 1]) != target_id(ts[i]));
                assert forall|j: int| i < j < d.len() implies target_id(d[j]) != target_id(d[i]) by {
                    assert(d[j] == ts[j]);
                }
            }
        }
        assert forall|id: Seq<char>| targets_map(ts).contains_key(id) implies exists|i: int|
            0 <= i < ts.len() && #[trigger] target_id(ts[i]) == id by {
            if id == target_id(ts.last()) {
                assert(target_id(ts[ts.len() - 1]) == id);
            } else {
                assert(targets_map(d).contains_key(id));
                let i = choose|i: int| 0 <= i < d.len() && #[trigger] target_id(d[i]) == id;
                assert(d[i] == ts[i]);
            }
        }
    }
}

/// A target without an id has as id all of its tags joined by `,`: where no
/// tag holds a `,`, splitting the id at `,` gives the tags back, so two such
/// targets with the same id have the same tags.
pub proof fn law_default_id_is_joined_tags(t: Target, u: Target)
    requires
        t.id is None,
        t.tags@.len() > 0,
        forall|i: int| 0 <= i < t.tags@.len() ==> !(#[trigger] t.tags@[i])@.contains(','),
    ensures
        split_on(target_id(t), ',') == string_views(t.tags@),
        u.id is None && u.tags@.len() > 0 && (forall|i: int| 0 <= i < u.tags@.len() ==> !(#[trigger] u.tags@[i])@.contains(','))
            && target_id(u) == target_id(t) ==> string_views(u.tags@) == string_views(t.tags@),
{
    reveal_strlit(",");
    assert(","@ =~= seq![',']);
    let tv = string_views(t.tags@);
    assert forall|i: int| 0 <= i < tv.len() implies !(#[trigger] tv[i]).contains(',') by {
        assert(tv[i] == t.tags@[i]@);
    }
    law_split_join(tv, ',');
    if u.id is None && u.tags@.len() > 0 && (forall|i: int| 0 <= i < u.tags@.len() ==> !(#[trigger] u.tags@[i])@.contains(',')) {
        let uv = string_views(u.tags@);
        assert forall|i: int| 0 <= i < uv.len() implies !(#[trigger] uv[i]).contains(',') by {
            assert(uv[i] == u.tags@[i]@);
        }
        law_split_join(uv, ',');
    }
}

} // verus!
