use vstd::prelude::*;

use std::collections::{BTreeMap, BTreeSet};

use crate::common::error::{invalid_state, Error};
pub use crate::common::idgen::SessionId;
use crate::common::idgen::{peer_numbers, window_numbers, PeerId, WindowId};
use crate::common::maps::{first_key, keys_in_order, lists_in_order, members_in_order, value_mut};
use crate::server::window::{focus_valid, refocused, Window};

verus! {

broadcast use {vstd::laws_cmp::group_laws_cmp, vstd::std_specs::btree::group_btree_axioms};

/// An ordered collection of windows with a focus and a set of attached peers.
pub struct Session {
    id: SessionId,
    name: String,
    windows: BTreeMap<u64, Window>,
    focused: Option<u64>,
    peers: BTreeSet<u64>,
}

impl Session {
    pub closed spec fn id_spec(&self) -> SessionId {
        self.id
    }

    pub closed spec fn name_spec(&self) -> Seq<char> {
        self.name@
    }

    /// The windows, by the number of their identifier.
    pub closed spec fn windows_map(&self) -> Map<u64, Window> {
        self.windows@
    }

    pub closed spec fn focused_spec(&self) -> Option<u64> {
        self.focused
    }

    /// Numbers of the attached peers.
    pub closed spec fn peers_set(&self) -> Set<u64> {
        self.peers@
    }

    /// The session's invariant: the focus names a window; each window is well
    /// formed and filed under its own identifier; peer numbers are non-zero.
    pub open spec fn wf(&self) -> bool {
        &&& focus_valid(self.focused_spec(), self.windows_map().dom())
        &&& !self.windows_map().contains_key(0)
        &&& !self.peers_set().contains(0)
        &&& forall|k: u64| #[trigger]
            self.windows_map().contains_key(k) ==> self.windows_map()[k].wf()
                && self.windows_map()[k].id_spec()@ == k
    }

    pub fn new(id: SessionId, name: &str) -> (r: Self)
        ensures
            r.wf(),
            r.id_spec() == id,
            r.name_spec() == name@,
            r.windows_map() == Map::<u64, Window>::empty(),
            r.focused_spec() is None,
            r.peers_set() == Set::<u64>::empty(),
    {
        Session {
            id,
            name: name.to_owned(),
            windows: BTreeMap::new(),
            focused: None,
            peers: BTreeSet::new(),
        }
    }

    pub fn id(&self) -> (r: SessionId)
        ensures
            r == self.id_spec(),
    {
        self.id
    }

    pub fn name(&self) -> (r: &str)
        ensures
            r@ == self.name_spec(),
    {
        self.name.as_str()
    }

    /// Adds a window under its identifier, focusing it when nothing had focus. An
    /// identifier already present is refused.
    pub fn add_window(&mut self, win: Window) -> (r: Result<(), Error>)
        requires
            old(self).wf(),
            win.wf(),
        ensures
            final(self).wf(),
            r is Err <==> old(self).windows_map().contains_key(win.id_spec()@),
            r matches Err(e) ==> e is InvalidState && *final(self) == *old(self),
            r is Ok ==> {
                &&& final(self).id_spec() == old(self).id_spec()
                &&& final(self).name_spec() == old(self).name_spec()
                &&& final(self).peers_set() == old(self).peers_set()
                &&& final(self).windows_map() == old(self).windows_map().insert(win.id_spec()@, win)
                &&& final(self).focused_spec() == (if old(self).focused_spec() is None {
                    Some(win.id_spec()@)
                } else {
                    old(self).focused_spec()
                })
            },
    {
        let k = win.id().get();
        if self.windows.contains_key(&k) {
            return Err(invalid_state("window already exists"));
        }
        self.windows.insert(k, win);
        if self.focused.is_none() {
            self.focused = Some(k);
        }
        Ok(())
    }

    /// Removes a window. If it had focus, focus moves to the least remaining
    /// window, or to none.
    pub fn remove_window(&mut self, id: WindowId) -> (r: Option<Window>)
        requires
            old(self).wf(),
        ensures
            final(self).wf(),
            r == (if old(self).windows_map().contains_key(id@) {
                Some(old(self).windows_map()[id@])
            } else {
                None::<Window>
            }),
            final(self).id_spec() == old(self).id_spec(),
            final(self).name_spec() == old(self).name_spec(),
            final(self).peers_set() == old(self).peers_set(),
            final(self).windows_map() == old(self).windows_map().remove(id@),
            refocused(old(self).focused_spec(), id@, final(self).focused_spec(), final(self).windows_map().dom()),
    {
        let k = id.get();
        let removed = self.windows.remove(&k);
        if self.focused == Some(k) {
            self.focused = first_key(&self.windows);
        }
        removed
    }

    /// Gives focus to a window of this session.
    pub fn focus_window(&mut self, id: WindowId) -> (r: Result<(), Error>)
        requires
            old(self).wf(),
        ensures
            final(self).wf(),
            r is Err <==> !old(self).windows_map().contains_key(id@),
            r matches Err(e) ==> e is InvalidState,
            r is Err ==> *final(self) == *old(self),
            r is Ok ==> final(self).focused_spec() == Some(id@),
            final(self).id_spec() == old(self).id_spec(),
            final(self).name_spec() == old(self).name_spec(),
            final(self).peers_set() == old(self).peers_set(),
            final(self).windows_map() == old(self).windows_map(),
    {
        let k = id.get();
        if !self.windows.contains_key(&k) {
            return Err(invalid_state("window not found"));
        }
        self.focused = Some(k);
        Ok(())
    }

    pub fn attach_peer(&mut self, who: PeerId)
        requires
            old(self).wf(),
        ensures
            final(self).wf(),
            final(self).peers_set() == old(self).peers_set().insert(who@),
            final(self).id_spec() == old(self).id_spec(),
            final(self).name_spec() == old(self).name_spec(),
            final(self).windows_map() == old(self).windows_map(),
            final(self).focused_spec() == old(self).focused_spec(),
    {
        self.peers.insert(who.get());
    }

    pub fn detach_peer(&mut self, who: PeerId)
        requires
            old(self).wf(),
        ensures
            final(self).wf(),
            final(self).peers_set() == old(self).peers_set().remove(who@),
            final(self).id_spec() == old(self).id_spec(),
            final(self).name_spec() == old(self).name_spec(),
            final(self).windows_map() == old(self).windows_map(),
            final(self).focused_spec() == old(self).focused_spec(),
    {
        self.peers.remove(&who.get());
    }

    pub fn has_peer(&self, who: PeerId) -> (r: bool)
        ensures
            r == self.peers_set().contains(who@),
    {
        self.peers.contains(&who.get())
    }

    /// The attached peers, in increasing order.
    pub fn peer_ids(&self) -> (r: Vec<PeerId>)
        requires
            self.wf(),
        ensures
            lists_in_order(peer_numbers(r@), self.peers_set()),
    {
        let keys = members_in_order(&self.peers);
        let mut out: Vec<PeerId> = Vec::new();
        let mut i: usize = 0;
        while i < keys.len()
            invariant
                i <= keys@.len(),
                lists_in_order(keys@, self.peers_set()),
                peer_numbers(out@) == keys@.subrange(0, i as int),
                !self.peers_set().contains(0),
            decreases keys@.len() - i,
        {
            let ghost before = out@;
            assert(keys@.to_set().contains(keys@[i as int]));
            out.push(PeerId::from_nonzero(keys[i]));
            assert(peer_numbers(out@) =~= peer_numbers(before).push(keys@[i as int]));
            assert(keys@.subrange(0, i + 1) =~= keys@.subrange(0, i as int).push(keys@[i as int]));
            i = i + 1;
        }
        assert(keys@.subrange(0, i as int) =~= keys@);
        out
    }

    pub fn window(&self, id: WindowId) -> (r: Option<&Window>)
        ensures
            r == (if self.windows_map().contains_key(id@) {
                Some(&self.windows_map()[id@])
            } else {
                None::<&Window>
            }),
    {
        self.windows.get(&id.get())
    }

    /// A mutable borrow of a window. The session stays well formed as long as the
    /// window does and keeps its identifier.
    pub fn window_mut(&mut self, id: WindowId) -> (r: Option<&mut Window>)
        ensures
            final(self).id_spec() == old(self).id_spec(),
            final(self).name_spec() == old(self).name_spec(),
            final(self).focused_spec() == old(self).focused_spec(),
            final(self).peers_set() == old(self).peers_set(),
            match r {
                Some(w) => {
                    &&& old(self).windows_map().contains_key(id@)
                    &&& *w == old(self).windows_map()[id@]
                    &&& final(self).windows_map() == old(self).windows_map().insert(id@, *final(w))
                },
                None => !old(self).windows_map().contains_key(id@) && *final(self) == *old(self),
            },
    {
        value_mut(&mut self.windows, id.get())
    }

    /// The focused window, if any.
    pub fn focused(&self) -> (r: Option<WindowId>)
        requires
            self.wf(),
        ensures
            r is Some <==> self.focused_spec() is Some,
            r matches Some(w) ==> self.focused_spec() == Some(w@),
    {
        match self.focused {
            Some(k) => match self.windows.get(&k) {
                Some(w) => Some(w.id()),
                None => None,
            },
            None => None,
        }
    }

    /// Identifiers of the windows, in increasing order.
    pub fn window_ids(&self) -> (r: Vec<WindowId>)
        requires
            self.wf(),
        ensures
            lists_in_order(window_numbers(r@), self.windows_map().dom()),
    {
        let keys = keys_in_order(&self.windows);
        let mut out: Vec<WindowId> = Vec::new();
        let mut i: usize = 0;
        while i < keys.len()
            invariant
                i <= keys@.len(),
                self.wf(),
                lists_in_order(keys@, self.windows_map().dom()),
                window_numbers(out@) == keys@.subrange(0, i as int),
            decreases keys@.len() - i,
        {
            let ghost before = out@;
            let k = keys[i];
            assert(keys@.to_set().contains(keys@[i as int]));
            assert(self.windows_map().contains_key(k));
            match self.windows.get(&k) {
                Some(w) => {
                    out.push(w.id());
                },
                None => {},
            }
            assert(window_numbers(out@) =~= window_numbers(before).push(k));
            assert(keys@.subrange(0, i + 1) =~= keys@.subrange(0, i as int).push(keys@[i as int]));
            i = i + 1;
        }
        assert(keys@.subrange(0, i as int) =~= keys@);
        out
    }
}

/// After any `add_window`, `remove_window` or `focus_window` on a well-formed
/// session, the focus is absent or names a window of the session.
pub proof fn lemma_session_focus_valid(s: Session)
    requires
        s.wf(),
    ensures
        s.focused_spec() matches Some(f) ==> s.windows_map().contains_key(f),
{
}

} // verus!
