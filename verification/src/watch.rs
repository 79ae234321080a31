//! The watchers of a scraper, by id: each the tags it searches for and the
//! hooks that its new posts go to.
use vstd::prelude::*;
use crate::assoc::Assoc;
use crate::hooks::{HookImpl, HookView, hook_views};
use crate::text::string_views;

verus! {

/// What a watcher's tags and hooks stand for.
pub open spec fn watch_value(v: (Vec<String>, Vec<HookImpl>)) -> (Seq<Seq<char>>, Seq<HookView>) {
    (string_views(v.0@), hook_views(v.1@))
}

/// Watchers by id, each id once, kept in the order in which ids were first
/// set.
pub struct WatchMap {
    map: Assoc<(Vec<String>, Vec<HookImpl>)>,
}

impl View for WatchMap {
    type V = Map<Seq<char>, (Seq<Seq<char>>, Seq<HookView>)>;

    closed spec fn view(&self) -> Self::V {
        self.map@.map_values(|v: (Vec<String>, Vec<HookImpl>)| watch_value(v))
    }
}

impl WatchMap {
    /// No id occurs twice.
    pub closed spec fn wf(&self) -> bool {
        self.map.wf()
    }

    /// The watchers, as (id, (tags, hooks)), in the order in which they are
    /// visited.
    pub closed spec fn watchers(&self) -> Seq<(String, (Vec<String>, Vec<HookImpl>))> {
        self.map.entries()
    }

    /// The watchers are the map's contents: each id once, each with its value.
    pub proof fn lemma_view(&self)
        requires
            self.wf(),
        ensures
            forall|i: int| 0 <= i < self.watchers().len() ==> self@.contains_key(
                #[trigger] self.watchers()[i].0@,
            ) && self@[self.watchers()[i].0@] == watch_value(self.watchers()[i].1),
            forall|k: Seq<char>| self@.contains_key(k) ==> exists|i: int|
                0 <= i < self.watchers().len() && #[trigger] self.watchers()[i].0@ == k,
            self@.dom().finite(),
            self@.len() == self.watchers().len(),
    {
        self.map.lemma_entries();
        assert(self@.dom() =~= self.map@.dom());
        assert forall|k: Seq<char>| self@.contains_key(k) implies exists|i: int|
            0 <= i < self.watchers().len() && #[trigger] self.watchers()[i].0@ == k by {
            assert(self.map@.contains_key(k));
            let i = choose|i: int| 0 <= i < self.map.entries().len() && #[trigger] self.map.entries()[i].0@ == k;
            assert(self.watchers()[i].0@ == k);
        }
    }

    /// No watchers.
    pub fn new() -> (m: Self)
        ensures
            m.wf(),
            m@ == Map::<Seq<char>, (Seq<Seq<char>>, Seq<HookView>)>::empty(),
    {
        let m = WatchMap { map: Assoc::new() };
        assert(m@ =~= Map::empty());
        m
    }

    /// The number of watchers.
    pub fn len(&self) -> (n: usize)
        ensures
            n == self.watchers().len(),
            self.wf() ==> n == self@.len(),
    {
        proof {
            if self.wf() {
                self.map.lemma_entries();
                assert(self@.dom() =~= self.map@.dom());
            }
        }
        self.map.as_entries().len()
    }

    /// Whether there is no watcher.
    pub fn is_empty(&self) -> (b: bool)
        ensures
            b == (self.watchers().len() == 0),
            self.wf() ==> b == (self@.len() == 0),
            self.wf() ==> b == (self@ == Map::<Seq<char>, (Seq<Seq<char>>, Seq<HookView>)>::empty()),
    {
        proof {
            if self.wf() {
                self.lemma_view();
                if self.watchers().len() > 0 {
                    assert(self@.contains_key(self.watchers()[0].0@));
                } else {
                    assert(self@ =~= Map::empty());
                }
            }
        }
        self.map.as_entries().len() == 0
    }

    /// The watcher at position `i` of the visiting order: its id, tags and
    /// hooks.
    pub fn get(&self, i: usize) -> (w: &(String, (Vec<String>, Vec<HookImpl>)))
        requires
            i < self.watchers().len(),
        ensures
            *w == self.watchers()[i as int],
    {
        self.map.entry(i)
    }

    /// Sets the tags and hooks of `id`, in place of any that it had.
    pub fn insert(&mut self, id: String, tags: Vec<String>, hooks: Vec<HookImpl>)
        requires
            old(self).wf(),
        ensures
            final(self).wf(),
            final(self)@ == old(self)@.insert(id@, (string_views(tags@), hook_views(hooks@))),
    {
        let ghost before = self.map@;
        let ghost k = id@;
        let ghost v = (tags, hooks);
        self.map.insert(id, (tags, hooks));
        assert(self@ =~= before.map_values(|v: (Vec<String>, Vec<HookImpl>)| watch_value(v)).insert(
            k,
            watch_value(v),
        ));
    }
}

} // verus!
