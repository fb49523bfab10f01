use vstd::prelude::*;

use std::collections::BTreeMap;

use crate::common::error::{invalid_state, Error};
pub use crate::common::idgen::WindowId;
use crate::common::idgen::{pane_numbers, PaneId};
use crate::common::maps::{first_key, is_least, keys_in_order, lists_in_order, value_mut};
use crate::server::pane::Pane;

verus! {

broadcast use {vstd::laws_cmp::group_laws_cmp, vstd::std_specs::btree::group_btree_axioms};

/// `focused` names one of `keys`, or nothing.
pub open spec fn focus_valid(focused: Option<u64>, keys: Set<u64>) -> bool {
    focused matches Some(f) ==> keys.contains(f)
}

/// Focus after the entry `gone` was removed: kept if it was elsewhere, else the
/// least remaining key, or nothing when none remains.
pub open spec fn refocused(before: Option<u64>, gone: u64, after: Option<u64>, keys: Set<u64>) -> bool {
    if before == Some(gone) {
        match after {
            None => keys == Set::<u64>::empty(),
            Some(f) => is_least(f, keys),
        }
    } else {
        after == before
    }
}

/// An ordered collection of panes with a focus.
pub struct Window {
    id: WindowId,
    name: String,
    panes: BTreeMap<u64, Pane>,
    focused: Option<u64>,
}

impl Window {
    pub closed spec fn id_spec(&self) -> WindowId {
        self.id
    }

    pub closed spec fn name_spec(&self) -> Seq<char> {
        self.name@
    }

    /// The panes, by the number of their identifier.
    pub closed spec fn panes_map(&self) -> Map<u64, Pane> {
        self.panes@
    }

    pub closed spec fn focused_spec(&self) -> Option<u64> {
        self.focused
    }

    /// The window's invariant: the focus names a pane; each pane is well formed
    /// and filed under its own identifier.
    pub open spec fn wf(&self) -> bool {
        &&& focus_valid(self.focused_spec(), self.panes_map().dom())
        &&& !self.panes_map().contains_key(0)
        &&& forall|k: u64| #[trigger]
            self.panes_map().contains_key(k) ==> self.panes_map()[k].wf()
                && self.panes_map()[k].id_spec()@ == k
    }

    pub fn new(id: WindowId, name: &str) -> (r: Self)
        ensures
            r.wf(),
            r.id_spec() == id,
            r.name_spec() == name@,
            r.panes_map() == Map::<u64, Pane>::empty(),
            r.focused_spec() is None,
    {
        Window { id, name: name.to_owned(), panes: BTreeMap::new(), focused: None }
    }

    pub fn id(&self) -> (r: WindowId)
        ensures
            r == self.id_spec(),
    {
        self.id
    }

    pub fn name(&self) -> (r: &str)
        ensures
            r@ == self.name_spec(),
    {
        self.name.as_str()
    }

    /// Adds a pane under its identifier, focusing it when nothing had focus. An
    /// identifier already present is refused.
    pub fn add_pane(&mut self, pane: Pane) -> (r: Result<(), Error>)
        requires
            old(self).wf(),
            pane.wf(),
        ensures
            final(self).wf(),
            r is Err <==> old(self).panes_map().contains_key(pane.id_spec()@),
            r matches Err(e) ==> e is InvalidState && *final(self) == *old(self),
            r is Ok ==> {
                &&& final(self).id_spec() == old(self).id_spec()
                &&& final(self).name_spec() == old(self).name_spec()
                &&& final(self).panes_map() == old(self).panes_map().insert(pane.id_spec()@, pane)
                &&& final(self).focused_spec() == (if old(self).focused_spec() is None {
                    Some(pane.id_spec()@)
                } else {
                    old(self).focused_spec()
                })
            },
    {
        let k = pane.id().get();
        if self.panes.contains_key(&k) {
            return Err(invalid_state("pane already exists"));
        }
        self.panes.insert(k, pane);
        if self.focused.is_none() {
            self.focused = Some(k);
        }
        Ok(())
    }

    /// Removes a pane. If it had focus, focus moves to the least remaining pane, or
    /// to none.
    pub fn remove_pane(&mut self, id: PaneId) -> (r: Option<Pane>)
        requires
            old(self).wf(),
        ensures
            final(self).wf(),
            r == (if old(self).panes_map().contains_key(id@) {
                Some(old(self).panes_map()[id@])
            } else {
                None::<Pane>
            }),
            final(self).id_spec() == old(self).id_spec(),
            final(self).name_spec() == old(self).name_spec(),
            final(self).panes_map() == old(self).panes_map().remove(id@),
            refocused(old(self).focused_spec(), id@, final(self).focused_spec(), final(self).panes_map().dom()),
    {
        let k = id.get();
        let removed = self.panes.remove(&k);
        if self.focused == Some(k) {
            self.focused = first_key(&self.panes);
        }
        removed
    }

    /// Gives focus to a pane of this window.
    pub fn focus(&mut self, id: PaneId) -> (r: Result<(), Error>)
        requires
            old(self).wf(),
        ensures
            final(self).wf(),
            r is Err <==> !old(self).panes_map().contains_key(id@),
            r matches Err(e) ==> e is InvalidState,
            r is Err ==> *final(self) == *old(self),
            r is Ok ==> final(self).focused_spec() == Some(id@),
            final(self).id_spec() == old(self).id_spec(),
            final(self).name_spec() == old(self).name_spec(),
            final(self).panes_map() == old(self).panes_map(),
    {
        let k = id.get();
        if !self.panes.contains_key(&k) {
            return Err(invalid_state("pane not found"));
        }
        self.focused = Some(k);
        Ok(())
    }

    /// The focused pane, if any.
    pub fn focused(&self) -> (r: Option<PaneId>)
        requires
            self.wf(),
        ensures
            r is Some <==> self.focused_spec() is Some,
            r matches Some(p) ==> self.focused_spec() == Some(p@),
    {
        match self.focused {
            Some(k) => match self.panes.get(&k) {
                Some(p) => Some(p.id()),
                None => None,
            },
            None => None,
        }
    }

    pub fn pane(&self, id: PaneId) -> (r: Option<&Pane>)
        ensures
            r == (if self.panes_map().contains_key(id@) {
                Some(&self.panes_map()[id@])
            } else {
                None::<&Pane>
            }),
    {
        self.panes.get(&id.get())
    }

    /// A mutable borrow of a pane. The window stays well formed as long as the
    /// pane does and keeps its identifier.
    pub fn pane_mut(&mut self, id: PaneId) -> (r: Option<&mut Pane>)
        ensures
            final(self).id_spec() == old(self).id_spec(),
            final(self).name_spec() == old(self).name_spec(),
            final(self).focused_spec() == old(self).focused_spec(),
            match r {
                Some(p) => {
                    &&& old(self).panes_map().contains_key(id@)
                    &&& *p == old(self).panes_map()[id@]
                    &&& final(self).panes_map() == old(self).panes_map().insert(id@, *final(p))
                },
                None => !old(self).panes_map().contains_key(id@) && *final(self) == *old(self),
            },
    {
        value_mut(&mut self.panes, id.get())
    }

    /// The largest pane number of the window, zero when it has none.
    pub fn max_pane_id(&self) -> (r: u64)
        ensures
            forall|k: u64| #[trigger] self.panes_map().contains_key(k) ==> k <= r,
            r == 0 || self.panes_map().contains_key(r),
    {
        let keys = keys_in_order(&self.panes);
        if keys.len() == 0 {
            assert forall|k: u64| #[trigger] self.panes_map().contains_key(k) implies k <= 0 by {
                assert(keys@.to_set().contains(k));
            }
            return 0;
        }
        let top = keys[keys.len() - 1];
        assert(keys@.to_set().contains(top));
        assert forall|k: u64| #[trigger] self.panes_map().contains_key(k) implies k <= top by {
            assert(keys@.to_set().contains(k));
            let i = choose|i: int| 0 <= i < keys@.len() && keys@[i] == k;
            if i < keys@.len() - 1 {
                assert(keys@[i] < keys@[keys@.len() - 1]);
            }
        }
        top
    }

    /// Identifiers of the panes, in increasing order.
    pub fn pane_ids(&self) -> (r: Vec<PaneId>)
        requires
            self.wf(),
        ensures
            lists_in_order(pane_numbers(r@), self.panes_map().dom()),
    {
        let keys = keys_in_order(&self.panes);
        let mut out: Vec<PaneId> = Vec::new();
        let mut i: usize = 0;
        while i < keys.len()
            invariant
                i <= keys@.len(),
                self.wf(),
                lists_in_order(keys@, self.panes_map().dom()),
                pane_numbers(out@) == keys@.subrange(0, i as int),
            decreases keys@.len() - i,
        {
            let ghost before = out@;
            let k = keys[i];
            assert(keys@.to_set().contains(keys@[i as int]));
            assert(self.panes_map().contains_key(k));
            match self.panes.get(&k) {
                Some(p) => {
                    out.push(p.id());
                },
                None => {},
            }
            assert(pane_numbers(out@) =~= pane_numbers(before).push(k));
            assert(keys@.subrange(0, i + 1) =~= keys@.subrange(0, i as int).push(keys@[i as int]));
            assert(pane_numbers(out@) =~= keys@.subrange(0, i + 1));
            i = i + 1;
        }
        assert(keys@.subrange(0, i as int) =~= keys@);
        out
    }
}

/// After any `add_pane`, `remove_pane` or `focus` on a well-formed window, the
/// focus is absent or names a pane of the window.
pub proof fn lemma_window_focus_valid(w: Window)
    requires
        w.wf(),
    ensures
        w.focused_spec() matches Some(f) ==> w.panes_map().contains_key(f),
{
}

} // verus!
