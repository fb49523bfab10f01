use vstd::prelude::*;

use std::collections::BTreeMap;

use crate::common::error::{invalid_state, Error};
use crate::common::idgen::{pane_numbers, peer_numbers, session_numbers, window_numbers, PaneId, PeerId, SessionId, WindowId};
use crate::common::maps::{keys_in_order, lists_in_order, value_mut};
use crate::common::maps::is_least;
use crate::pty::{ByteChunk, PtyHandle};
use crate::pty::ExitStatus;
use crate::server::pane::{exit_poll_step, latched, Pane, TermSize};
use crate::server::peer::Peer;
use crate::server::session::Session;
use crate::server::window::{refocused, Window};
use crate::server::IdAllocator;

verus! {

broadcast use {vstd::laws_cmp::group_laws_cmp, vstd::std_specs::btree::group_btree_axioms};

/// Every window of `s` is numbered at most `wl`, and every pane at most `pl`.
pub open spec fn ids_within(s: Session, wl: u64, pl: u64) -> bool {
    forall|w: u64| #[trigger] s.windows_map().contains_key(w) ==> w <= wl && forall|p: u64|
        #[trigger] s.windows_map()[w].panes_map().contains_key(p) ==> p <= pl
}

/// Raising the bounds keeps them bounds.
pub proof fn lemma_ids_within_grow(s: Session, wl: u64, pl: u64, wl2: u64, pl2: u64)
    requires
        ids_within(s, wl, pl),
        wl <= wl2,
        pl <= pl2,
    ensures
        ids_within(s, wl2, pl2),
{
}

/// One identifier allocator per kind.
pub struct Allocators {
    pub session: IdAllocator,
    pub window: IdAllocator,
    pub pane: IdAllocator,
    pub peer: IdAllocator,
}

impl Allocators {
    pub fn new() -> (r: Self)
        ensures
            r.session.last() == 0,
            r.window.last() == 0,
            r.pane.last() == 0,
            r.peer.last() == 0,
    {
        Allocators {
            session: IdAllocator::new(),
            window: IdAllocator::new(),
            pane: IdAllocator::new(),
            peer: IdAllocator::new(),
        }
    }
}

/// Everything the server knows: sessions (with their windows and panes) and peers.
pub struct ServerState {
    allocs: Allocators,
    sessions: BTreeMap<u64, Session>,
    peers: BTreeMap<u64, Peer>,
}

impl ServerState {
    pub closed spec fn allocs_spec(&self) -> Allocators {
        self.allocs
    }

    /// The sessions, by the number of their identifier.
    pub closed spec fn sessions_map(&self) -> Map<u64, Session> {
        self.sessions@
    }

    /// The peers, by the number of their identifier.
    pub closed spec fn peers_map(&self) -> Map<u64, Peer> {
        self.peers@
    }

    /// The state's invariant: every session is well formed, filed under its own
    /// identifier and numbered no higher than the session allocator has issued,
    /// and its windows and panes are numbered no higher than their allocators
    /// have issued; every peer is filed under its own identifier and numbered no
    /// higher than the peer allocator has issued.
    pub open spec fn wf(&self) -> bool {
        &&& forall|k: u64| #[trigger]
            self.sessions_map().contains_key(k) ==> {
                &&& self.sessions_map()[k].wf()
                &&& self.sessions_map()[k].id_spec()@ == k
                &&& 0 < k <= self.allocs_spec().session.last()
                &&& ids_within(self.sessions_map()[k], self.allocs_spec().window.last(), self.allocs_spec().pane.last())
            }
        &&& forall|k: u64| #[trigger]
            self.peers_map().contains_key(k) ==> {
                &&& self.peers_map()[k].id@ == k
                &&& 0 < k <= self.allocs_spec().peer.last()
            }
    }

    /// Same allocators, sessions and peers.
    pub open spec fn same_state(a: ServerState, b: ServerState) -> bool {
        &&& a.allocs_spec() == b.allocs_spec()
        &&& a.sessions_map() == b.sessions_map()
        &&& a.peers_map() == b.peers_map()
    }

    /// The window `wid` of session `sid` exists.
    pub open spec fn has_window(&self, sid: u64, wid: u64) -> bool {
        &&& self.sessions_map().contains_key(sid)
        &&& self.sessions_map()[sid].windows_map().contains_key(wid)
    }

    pub open spec fn window_at(&self, sid: u64, wid: u64) -> Window {
        self.sessions_map()[sid].windows_map()[wid]
    }

    /// `after` differs from `before` at most in the window `wid` of session `sid`,
    /// in that session's peer set and in the allocators.
    pub open spec fn only_window_changed(before: ServerState, after: ServerState, sid: u64, wid: u64) -> bool {
        let sb = before.sessions_map()[sid];
        let sa = after.sessions_map()[sid];
        &&& after.peers_map() == before.peers_map()
        &&& after.sessions_map().dom() =~= before.sessions_map().dom()
        &&& forall|k: u64| k != sid && #[trigger] before.sessions_map().contains_key(k) ==>
            after.sessions_map()[k] == before.sessions_map()[k]
        &&& sa.id_spec() == sb.id_spec()
        &&& sa.name_spec() == sb.name_spec()
        &&& sa.focused_spec() == sb.focused_spec()
        &&& sa.windows_map().dom() =~= sb.windows_map().dom()
        &&& forall|k: u64| k != wid && #[trigger] sb.windows_map().contains_key(k) ==>
            sa.windows_map()[k] == sb.windows_map()[k]
        &&& sa.windows_map()[wid].id_spec() == sb.windows_map()[wid].id_spec()
        &&& sa.windows_map()[wid].name_spec() == sb.windows_map()[wid].name_spec()
    }

    /// Brings the invariant of `before` to bear on each entry of `self` with the
    /// same sessions and peers by number.
    proof fn lemma_frame(&self, before: &ServerState)
        requires
            before.wf(),
            self.sessions_map().dom() == before.sessions_map().dom(),
            self.peers_map().dom() == before.peers_map().dom(),
        ensures
            forall|k: u64| #[trigger] self.sessions_map().contains_key(k) ==> {
                &&& before.sessions_map()[k].wf()
                &&& before.sessions_map()[k].id_spec()@ == k
                &&& 0 < k <= before.allocs_spec().session.last()
                &&& ids_within(before.sessions_map()[k], before.allocs_spec().window.last(), before.allocs_spec().pane.last())
            },
            forall|k: u64| #[trigger] self.peers_map().contains_key(k) ==> {
                &&& before.peers_map()[k].id@ == k
                &&& 0 < k <= before.allocs_spec().peer.last()
            },
    {
        assert forall|k: u64| #[trigger] self.sessions_map().contains_key(k) implies
            before.sessions_map().contains_key(k) by {}
        assert forall|k: u64| #[trigger] self.peers_map().contains_key(k) implies
            before.peers_map().contains_key(k) by {}
    }

    /// Session `sid` has the same peers in `after` as in `before`.
    pub open spec fn session_peers_kept(before: ServerState, after: ServerState, sid: u64) -> bool {
        after.sessions_map()[sid].peers_set() == before.sessions_map()[sid].peers_set()
    }

    /// The pane `pid` of window `wid` of session `sid` exists.
    pub open spec fn has_pane(&self, sid: u64, wid: u64, pid: u64) -> bool {
        &&& self.has_window(sid, wid)
        &&& self.window_at(sid, wid).panes_map().contains_key(pid)
    }

    pub open spec fn pane_at(&self, sid: u64, wid: u64, pid: u64) -> Pane {
        self.window_at(sid, wid).panes_map()[pid]
    }

    /// `after` differs from `before` at most in the pane `pid` of window `wid` of
    /// session `sid` and in that session's peer set.
    pub open spec fn only_pane_changed(before: ServerState, after: ServerState, sid: u64, wid: u64, pid: u64) -> bool {
        let wb = before.window_at(sid, wid);
        let wa = after.window_at(sid, wid);
        &&& Self::only_window_changed(before, after, sid, wid)
        &&& after.allocs_spec() == before.allocs_spec()
        &&& wa.focused_spec() == wb.focused_spec()
        &&& wa.panes_map().dom() =~= wb.panes_map().dom()
        &&& forall|k: u64| k != pid && #[trigger] wb.panes_map().contains_key(k) ==>
            wa.panes_map()[k] == wb.panes_map()[k]
    }

    /// A well-formed state stays well formed when one pane changes into another
    /// well-formed pane with the same identifier.
    proof fn lemma_pane_change_wf(before: ServerState, after: ServerState, sid: u64, wid: u64, pid: u64)
        requires
            before.wf(),
            before.has_pane(sid, wid, pid),
            Self::only_pane_changed(before, after, sid, wid, pid),
            Self::session_peers_kept(before, after, sid),
            after.pane_at(sid, wid, pid).wf(),
            after.pane_at(sid, wid, pid).id_spec() == before.pane_at(sid, wid, pid).id_spec(),
        ensures
            after.wf(),
            after.has_pane(sid, wid, pid),
    {
        let sb = before.sessions_map()[sid];
        let sa = after.sessions_map()[sid];
        let wb = before.window_at(sid, wid);
        let wa = after.window_at(sid, wid);
        assert(before.sessions_map().contains_key(sid));
        assert(sb.windows_map().contains_key(wid));
        assert(wb.panes_map().contains_key(pid));
        assert(wa.wf()) by {
            assert forall|k: u64| #[trigger] wa.panes_map().contains_key(k) implies wa.panes_map()[k].wf()
                && wa.panes_map()[k].id_spec()@ == k by {
                assert(wb.panes_map().contains_key(k));
            }
        }
        assert(sa.wf()) by {
            assert forall|k: u64| #[trigger] sa.windows_map().contains_key(k) implies sa.windows_map()[k].wf()
                && sa.windows_map()[k].id_spec()@ == k by {
                assert(sb.windows_map().contains_key(k));
            }
        }
        let wl = before.allocs_spec().window.last();
        let pl = before.allocs_spec().pane.last();
        assert(ids_within(sb, wl, pl));
        assert(ids_within(sa, wl, pl)) by {
            assert forall|w: u64| #[trigger] sa.windows_map().contains_key(w) implies w <= wl && forall|p: u64|
                #[trigger] sa.windows_map()[w].panes_map().contains_key(p) ==> p <= pl by {
                assert(sb.windows_map().contains_key(w));
                assert forall|p: u64| #[trigger] sa.windows_map()[w].panes_map().contains_key(p) implies p <= pl by {
                    if w == wid {
                        assert(wb.panes_map().contains_key(p));
                    } else {
                        assert(sb.windows_map()[w].panes_map().contains_key(p));
                    }
                }
            }
        }
        assert forall|k: u64| #[trigger] after.sessions_map().contains_key(k) implies {
            &&& after.sessions_map()[k].wf()
            &&& after.sessions_map()[k].id_spec()@ == k
            &&& 0 < k <= after.allocs_spec().session.last()
            &&& ids_within(after.sessions_map()[k], after.allocs_spec().window.last(), after.allocs_spec().pane.last())
        } by {
            assert(before.sessions_map().contains_key(k));
        }
        assert forall|k: u64| #[trigger] after.peers_map().contains_key(k) implies {
            &&& after.peers_map()[k].id@ == k
            &&& 0 < k <= after.allocs_spec().peer.last()
        } by {
            assert(before.peers_map().contains_key(k));
        }
    }

    /// Whether the pane `pid` of window `wid` of session `sid` exists.
    pub fn has_pane_at(&self, sid: SessionId, wid: WindowId, pid: PaneId) -> (r: bool)
        ensures
            r == self.has_pane(sid@, wid@, pid@),
    {
        match self.sessions.get(&sid.get()) {
            Some(s) => match s.window(wid) {
                Some(w) => w.pane(pid).is_some(),
                None => false,
            },
            None => false,
        }
    }

    fn pane_mut_at(&mut self, sid: SessionId, wid: WindowId, pid: PaneId) -> (r: &mut Pane)
        requires
            old(self).has_pane(sid@, wid@, pid@),
        ensures
            *r == old(self).pane_at(sid@, wid@, pid@),
            Self::only_pane_changed(*old(self), *final(self), sid@, wid@, pid@),
            Self::session_peers_kept(*old(self), *final(self), sid@),
            final(self).pane_at(sid@, wid@, pid@) == *final(r),
    {
        match value_mut(&mut self.sessions, sid.get()) {
            Some(s) => match s.window_mut(wid) {
                Some(w) => match w.pane_mut(pid) {
                    Some(p) => p,
                    None => vstd::pervasive::unreached(),
                },
                None => vstd::pervasive::unreached(),
            },
            None => vstd::pervasive::unreached(),
        }
    }

    pub fn new() -> (r: Self)
        ensures
            r.wf(),
            r.sessions_map() == Map::<u64, Session>::empty(),
            r.peers_map() == Map::<u64, Peer>::empty(),
            r.allocs_spec().session.last() == 0,
            r.allocs_spec().window.last() == 0,
            r.allocs_spec().pane.last() == 0,
            r.allocs_spec().peer.last() == 0,
    {
        ServerState { allocs: Allocators::new(), sessions: BTreeMap::new(), peers: BTreeMap::new() }
    }

    pub fn can_allocate_session(&self) -> (r: bool)
        ensures
            r == (self.allocs_spec().session.last() < u64::MAX),
    {
        self.allocs.session.can_allocate()
    }

    pub fn can_allocate_window(&self) -> (r: bool)
        ensures
            r == (self.allocs_spec().window.last() < u64::MAX),
    {
        self.allocs.window.can_allocate()
    }

    pub fn can_allocate_pane(&self) -> (r: bool)
        ensures
            r == (self.allocs_spec().pane.last() < u64::MAX),
    {
        self.allocs.pane.can_allocate()
    }

    pub fn can_allocate_peer(&self) -> (r: bool)
        ensures
            r == (self.allocs_spec().peer.last() < u64::MAX),
    {
        self.allocs.peer.can_allocate()
    }

    /// Creates an empty session under a fresh identifier.
    pub fn new_session(&mut self, name: &str) -> (r: SessionId)
        requires
            old(self).wf(),
            old(self).allocs_spec().session.last() < u64::MAX,
        ensures
            final(self).wf(),
            r@ == old(self).allocs_spec().session.last() + 1,
            !old(self).sessions_map().contains_key(r@),
            final(self).sessions_map().remove(r@) == old(self).sessions_map(),
            final(self).sessions_map().contains_key(r@),
            final(self).sessions_map()[r@].id_spec() == r,
            final(self).sessions_map()[r@].name_spec() == name@,
            final(self).sessions_map()[r@].windows_map() == Map::<u64, Window>::empty(),
            final(self).sessions_map()[r@].focused_spec() is None,
            final(self).sessions_map()[r@].peers_set() == Set::<u64>::empty(),
            final(self).peers_map() == old(self).peers_map(),
    {
        let raw = self.allocs.session.allocate();
        assert(!old(self).sessions@.contains_key(raw)) by {
            if old(self).sessions@.contains_key(raw) {
                assert(old(self).sessions_map().contains_key(raw));
            }
        }
        let id = SessionId::from_nonzero(raw);
        self.sessions.insert(raw, Session::new(id, name));
        assert(self.sessions@.remove(raw) =~= old(self).sessions@);
        assert forall|k: u64| #[trigger] self.sessions_map().contains_key(k) && k != raw implies
            old(self).sessions_map().contains_key(k) by {}
        assert forall|k: u64| #[trigger] self.peers_map().contains_key(k) implies
            old(self).peers_map().contains_key(k) by {}
        id
    }

    /// Adds a pre-built window to a session.
    pub fn add_window(&mut self, sid: SessionId, win: Window) -> (r: Result<(), Error>)
        requires
            old(self).wf(),
            win.wf(),
        ensures
            final(self).wf(),
            r is Err <==> (!old(self).sessions_map().contains_key(sid@)
                || old(self).sessions_map()[sid@].windows_map().contains_key(win.id_spec()@)),
            r matches Err(e) ==> e is InvalidState && Self::same_state(*final(self), *old(self)),
            r is Ok ==> {
                let sb = old(self).sessions_map()[sid@];
                let sa = final(self).sessions_map()[sid@];
                let a0 = old(self).allocs_spec();
                let a1 = final(self).allocs_spec();
                &&& a1.session == a0.session
                &&& a1.peer == a0.peer
                &&& a1.window.last() == (if win.id_spec()@ > a0.window.last() {
                    win.id_spec()@
                } else {
                    a0.window.last()
                })
                &&& a0.pane.last() <= a1.pane.last()
                &&& (forall|p: u64| #[trigger] win.panes_map().contains_key(p) ==> p <= a1.pane.last())
                &&& (a1.pane.last() == a0.pane.last() || win.panes_map().contains_key(a1.pane.last()))
                &&& final(self).peers_map() == old(self).peers_map()
                &&& final(self).sessions_map().dom() == old(self).sessions_map().dom()
                &&& forall|k: u64| k != sid@ && #[trigger] old(self).sessions_map().contains_key(k)
                    ==> final(self).sessions_map()[k] == old(self).sessions_map()[k]
                &&& sa.windows_map() == sb.windows_map().insert(win.id_spec()@, win)
                &&& sa.id_spec() == sb.id_spec()
                &&& sa.name_spec() == sb.name_spec()
                &&& sa.peers_set() == sb.peers_set()
                &&& sa.focused_spec() == (if sb.focused_spec() is None {
                    Some(win.id_spec()@)
                } else {
                    sb.focused_spec()
                })
            },
    {
        let k = sid.get();
        let wnum = win.id().get();
        let top = win.max_pane_id();
        let ghost w0 = win;
        let r = match value_mut(&mut self.sessions, k) {
            Some(s) => s.add_window(win),
            None => Err(invalid_state("no such session")),
        };
        if r.is_ok() {
            self.allocs.window.advance_to(wnum);
            self.allocs.pane.advance_to(top);
        }
        proof {
            assert(self.sessions_map().dom() =~= old(self).sessions_map().dom());
            if r is Err {
                assert(self.sessions_map() =~= old(self).sessions_map());
            }
            self.lemma_frame(old(self));
            let wl0 = old(self).allocs_spec().window.last();
            let pl0 = old(self).allocs_spec().pane.last();
            let wl = self.allocs_spec().window.last();
            let pl = self.allocs_spec().pane.last();
            assert forall|j: u64| #[trigger] self.sessions_map().contains_key(j) implies ids_within(
                self.sessions_map()[j],
                wl,
                pl,
            ) by {
                assert(old(self).sessions_map().contains_key(j));
                lemma_ids_within_grow(old(self).sessions_map()[j], wl0, pl0, wl, pl);
                if j == k && r is Ok {
                    let sb = old(self).sessions_map()[j];
                    let sa = self.sessions_map()[j];
                    assert forall|w: u64| #[trigger] sa.windows_map().contains_key(w) implies w <= wl && forall|p: u64|
                        #[trigger] sa.windows_map()[w].panes_map().contains_key(p) ==> p <= pl by {
                        if w != wnum {
                            assert(sb.windows_map().contains_key(w));
                        } else {
                            assert(sa.windows_map()[w] == w0);
                        }
                    }
                }
            }
        }
        r
    }

    /// Creates a window in a session under a freshly allocated identifier; it
    /// fails only when the session is missing. The identifier is consumed even
    /// then.
    pub fn new_window(&mut self, sid: SessionId, name: &str) -> (r: Result<WindowId, Error>)
        requires
            old(self).wf(),
            old(self).allocs_spec().window.last() < u64::MAX,
        ensures
            final(self).wf(),
            final(self).allocs_spec().window.last() == old(self).allocs_spec().window.last() + 1,
            final(self).peers_map() == old(self).peers_map(),
            r is Err <==> !old(self).sessions_map().contains_key(sid@),
            r matches Err(e) ==> e is InvalidState && final(self).sessions_map() == old(self).sessions_map(),
            r matches Ok(w) ==> {
                let sb = old(self).sessions_map()[sid@];
                let sa = final(self).sessions_map()[sid@];
                &&& w@ == old(self).allocs_spec().window.last() + 1
                &&& final(self).sessions_map().dom() == old(self).sessions_map().dom()
                &&& forall|k: u64| k != sid@ && #[trigger] old(self).sessions_map().contains_key(k)
                    ==> final(self).sessions_map()[k] == old(self).sessions_map()[k]
                &&& sa.windows_map().dom() =~= sb.windows_map().dom().insert(w@)
                &&& sa.windows_map()[w@].id_spec() == w
                &&& sa.windows_map()[w@].name_spec() == name@
                &&& sa.windows_map()[w@].panes_map() == Map::<u64, Pane>::empty()
                &&& forall|k: u64| k != w@ && #[trigger] sb.windows_map().contains_key(k)
                    ==> sa.windows_map()[k] == sb.windows_map()[k]
                &&& sa.focused_spec() == (if sb.focused_spec() is None {
                    Some(w@)
                } else {
                    sb.focused_spec()
                })
            },
    {
        let raw = self.allocs.window.allocate();
        proof {
            self.lemma_frame(old(self));
        }
        let id = WindowId::from_nonzero(raw);
        let w = Window::new(id, name);
        let r = self.add_window(sid, w);
        match r {
            Ok(()) => Ok(id),
            Err(e) => Err(e),
        }
    }

    /// Registers a peer under a fresh identifier.
    pub fn new_peer(&mut self, name: &str) -> (r: PeerId)
        requires
            old(self).wf(),
            old(self).allocs_spec().peer.last() < u64::MAX,
        ensures
            final(self).wf(),
            r@ == old(self).allocs_spec().peer.last() + 1,
            !old(self).peers_map().contains_key(r@),
            final(self).peers_map().remove(r@) == old(self).peers_map(),
            final(self).peers_map().contains_key(r@),
            final(self).peers_map()[r@].id == r,
            final(self).peers_map()[r@].name@ == name@,
            final(self).sessions_map() == old(self).sessions_map(),
    {
        let raw = self.allocs.peer.allocate();
        assert(!old(self).peers@.contains_key(raw)) by {
            if old(self).peers@.contains_key(raw) {
                assert(old(self).peers_map().contains_key(raw));
            }
        }
        let id = PeerId::from_nonzero(raw);
        self.peers.insert(raw, Peer::new(id, name));
        assert(self.peers@.remove(raw) =~= old(self).peers@);
        assert forall|k: u64| #[trigger] self.peers_map().contains_key(k) && k != raw implies
            old(self).peers_map().contains_key(k) by {}
        assert forall|k: u64| #[trigger] self.sessions_map().contains_key(k) implies
            old(self).sessions_map().contains_key(k) by {}
        id
    }

    /// Adds a pre-built pane to a window of a session.
    pub fn add_pane(&mut self, sid: SessionId, wid: WindowId, pane: Pane) -> (r: Result<(), Error>)
        requires
            old(self).wf(),
            pane.wf(),
        ensures
            final(self).wf(),
            r is Err <==> (!old(self).has_window(sid@, wid@) || old(self).window_at(
                sid@,
                wid@,
            ).panes_map().contains_key(pane.id_spec()@)),
            r matches Err(e) ==> e is InvalidState && Self::same_state(*final(self), *old(self)),
            r is Ok ==> {
                let wb = old(self).window_at(sid@, wid@);
                let wa = final(self).window_at(sid@, wid@);
                let a0 = old(self).allocs_spec();
                let a1 = final(self).allocs_spec();
                &&& Self::only_window_changed(*old(self), *final(self), sid@, wid@)
                &&& Self::session_peers_kept(*old(self), *final(self), sid@)
                &&& a1.session == a0.session && a1.window == a0.window && a1.peer == a0.peer
                &&& a1.pane.last() == (if pane.id_spec()@ > a0.pane.last() {
                    pane.id_spec()@
                } else {
                    a0.pane.last()
                })
                &&& wa.panes_map() == wb.panes_map().insert(pane.id_spec()@, pane)
                &&& wa.focused_spec() == (if wb.focused_spec() is None {
                    Some(pane.id_spec()@)
                } else {
                    wb.focused_spec()
                })
            },
    {
        match self.sessions.get(&sid.get()) {
            None => {
                return Err(invalid_state("no such session"));
            },
            Some(s) => match s.window(wid) {
                None => {
                    return Err(invalid_state("no such window"));
                },
                Some(w) => {
                    if w.pane(pane.id()).is_some() {
                        return Err(invalid_state("pane already exists"));
                    }
                },
            },
        }
        let pnum = pane.id().get();
        let r = match value_mut(&mut self.sessions, sid.get()) {
            Some(s) => match s.window_mut(wid) {
                Some(w) => w.add_pane(pane),
                None => Err(invalid_state("no such window")),
            },
            None => Err(invalid_state("no such session")),
        };
        self.allocs.pane.advance_to(pnum);
        proof {
            assert(self.sessions_map().dom() =~= old(self).sessions_map().dom());
            assert(self.sessions_map()[sid@].windows_map().dom() =~= old(self).sessions_map()[sid@].windows_map().dom());
            self.lemma_frame(old(self));
            let wl = self.allocs_spec().window.last();
            let pl0 = old(self).allocs_spec().pane.last();
            let pl = self.allocs_spec().pane.last();
            assert forall|j: u64| #[trigger] self.sessions_map().contains_key(j) implies ids_within(
                self.sessions_map()[j],
                wl,
                pl,
            ) by {
                assert(old(self).sessions_map().contains_key(j));
                lemma_ids_within_grow(old(self).sessions_map()[j], wl, pl0, wl, pl);
                if j == sid@ {
                    let sb = old(self).sessions_map()[j];
                    let sa = self.sessions_map()[j];
                    assert forall|w: u64| #[trigger] sa.windows_map().contains_key(w) implies w <= wl && forall|p: u64|
                        #[trigger] sa.windows_map()[w].panes_map().contains_key(p) ==> p <= pl by {
                        assert(sb.windows_map().contains_key(w));
                        if w == wid@ {
                            assert forall|p: u64| #[trigger] sa.windows_map()[w].panes_map().contains_key(p) implies p <= pl by {
                                if p != pnum {
                                    assert(sb.windows_map()[w].panes_map().contains_key(p));
                                }
                            }
                        }
                    }
                }
            }
        }
        r
    }

    /// Creates a pane in state `Empty` in a window, under a freshly allocated
    /// identifier; it fails only when the window is missing. The identifier is
    /// consumed even then.
    pub fn new_pane(&mut self, sid: SessionId, wid: WindowId, title: &str, size: TermSize) -> (r:
        Result<PaneId, Error>)
        requires
            old(self).wf(),
            old(self).allocs_spec().pane.last() < u64::MAX,
        ensures
            final(self).wf(),
            final(self).allocs_spec().pane.last() == old(self).allocs_spec().pane.last() + 1,
            r is Err <==> !old(self).has_window(sid@, wid@),
            r matches Err(e) ==> e is InvalidState && final(self).sessions_map() == old(self).sessions_map(),
            r matches Ok(p) ==> {
                let wb = old(self).window_at(sid@, wid@);
                let wa = final(self).window_at(sid@, wid@);
                &&& p@ == old(self).allocs_spec().pane.last() + 1
                &&& Self::only_window_changed(*old(self), *final(self), sid@, wid@)
                &&& Self::session_peers_kept(*old(self), *final(self), sid@)
                &&& wa.panes_map().dom() =~= wb.panes_map().dom().insert(p@)
                &&& forall|k: u64| k != p@ && #[trigger] wb.panes_map().contains_key(k)
                    ==> wa.panes_map()[k] == wb.panes_map()[k]
                &&& wa.panes_map()[p@].id_spec() == p
                &&& wa.panes_map()[p@].title_spec() == title@
                &&& wa.panes_map()[p@].size_spec() == size
                &&& wa.panes_map()[p@].state_spec() is Empty
                &&& wa.panes_map()[p@].attached_set() == Set::<u64>::empty()
                &&& wa.focused_spec() == (if wb.focused_spec() is None {
                    Some(p@)
                } else {
                    wb.focused_spec()
                })
            },
    {
        let raw = self.allocs.pane.allocate();
        proof {
            self.lemma_frame(old(self));
        }
        let id = PaneId::from_nonzero(raw);
        let pane = Pane::new(id, title, size);
        let r = self.add_pane(sid, wid, pane);
        match r {
            Ok(()) => Ok(id),
            Err(e) => Err(e),
        }
    }

    pub fn session(&self, id: SessionId) -> (r: Option<&Session>)
        ensures
            r == (if self.sessions_map().contains_key(id@) {
                Some(&self.sessions_map()[id@])
            } else {
                None::<&Session>
            }),
    {
        self.sessions.get(&id.get())
    }

    /// A mutable borrow of a session. The state stays well formed as long as the
    /// session does and keeps its identifier.
    pub fn session_mut(&mut self, id: SessionId) -> (r: Option<&mut Session>)
        ensures
            final(self).allocs_spec() == old(self).allocs_spec(),
            final(self).peers_map() == old(self).peers_map(),
            match r {
                Some(s) => {
                    &&& old(self).sessions_map().contains_key(id@)
                    &&& *s == old(self).sessions_map()[id@]
                    &&& final(self).sessions_map() == old(self).sessions_map().insert(id@, *final(s))
                },
                None => !old(self).sessions_map().contains_key(id@) && *final(self) == *old(self),
            },
    {
        value_mut(&mut self.sessions, id.get())
    }

    /// Identifiers of the sessions, in increasing order.
    pub fn session_ids(&self) -> (r: Vec<SessionId>)
        requires
            self.wf(),
        ensures
            lists_in_order(session_numbers(r@), self.sessions_map().dom()),
    {
        let keys = keys_in_order(&self.sessions);
        let mut out: Vec<SessionId> = Vec::new();
        let mut i: usize = 0;
        while i < keys.len()
            invariant
                i <= keys@.len(),
                self.wf(),
                lists_in_order(keys@, self.sessions_map().dom()),
                session_numbers(out@) == keys@.subrange(0, i as int),
            decreases keys@.len() - i,
        {
            let ghost before = out@;
            let k = keys[i];
            assert(keys@.to_set().contains(keys@[i as int]));
            assert(self.sessions_map().contains_key(k));
            match self.sessions.get(&k) {
                Some(s) => {
                    out.push(s.id());
                },
                None => {},
            }
            assert(session_numbers(out@) =~= session_numbers(before).push(k));
            assert(keys@.subrange(0, i + 1) =~= keys@.subrange(0, i as int).push(keys@[i as int]));
            i = i + 1;
        }
        assert(keys@.subrange(0, i as int) =~= keys@);
        out
    }

    pub fn peer(&self, id: PeerId) -> (r: Option<&Peer>)
        ensures
            r == (if self.peers_map().contains_key(id@) {
                Some(&self.peers_map()[id@])
            } else {
                None::<&Peer>
            }),
    {
        self.peers.get(&id.get())
    }

    /// Identifiers of the peers, in increasing order.
    pub fn peer_ids(&self) -> (r: Vec<PeerId>)
        requires
            self.wf(),
        ensures
            lists_in_order(peer_numbers(r@), self.peers_map().dom()),
    {
        let keys = keys_in_order(&self.peers);
        let mut out: Vec<PeerId> = Vec::new();
        let mut i: usize = 0;
        while i < keys.len()
            invariant
                i <= keys@.len(),
                self.wf(),
                lists_in_order(keys@, self.peers_map().dom()),
                peer_numbers(out@) == keys@.subrange(0, i as int),
            decreases keys@.len() - i,
        {
            let ghost before = out@;
            let k = keys[i];
            assert(keys@.to_set().contains(keys@[i as int]));
            assert(self.peers_map().contains_key(k));
            match self.peers.get(&k) {
                Some(p) => {
                    out.push(p.id);
                },
                None => {},
            }
            assert(peer_numbers(out@) =~= peer_numbers(before).push(k));
            assert(keys@.subrange(0, i + 1) =~= keys@.subrange(0, i as int).push(keys@[i as int]));
            i = i + 1;
        }
        assert(keys@.subrange(0, i as int) =~= keys@);
        out
    }

    /// The pane `pid` of window `wid` of session `sid`, if it exists.
    pub fn pane_ref(&self, sid: SessionId, wid: WindowId, pid: PaneId) -> (r: Option<&Pane>)
        ensures
            r == (if self.has_pane(sid@, wid@, pid@) {
                Some(&self.pane_at(sid@, wid@, pid@))
            } else {
                None::<&Pane>
            }),
    {
        match self.sessions.get(&sid.get()) {
            Some(s) => match s.window(wid) {
                Some(w) => w.pane(pid),
                None => None,
            },
            None => None,
        }
    }

    /// Attaches `peer` to a pane: the session records the peer, and the pane
    /// attaches it (with a tap when it has a PTY) and makes it input owner if it
    /// had none. The window's focus is left alone.
    pub fn attach_peer_to_pane(&mut self, sid: SessionId, wid: WindowId, pid: PaneId, peer: PeerId) -> (r:
        Result<(), Error>)
        requires
            old(self).wf(),
        ensures
            final(self).wf(),
            r is Err <==> !old(self).has_pane(sid@, wid@, pid@),
            r matches Err(e) ==> e is InvalidState && Self::same_state(*final(self), *old(self)),
            r is Ok ==> {
                let pb = old(self).pane_at(sid@, wid@, pid@);
                let pa = final(self).pane_at(sid@, wid@, pid@);
                &&& Self::only_pane_changed(*old(self), *final(self), sid@, wid@, pid@)
                &&& final(self).sessions_map()[sid@].peers_set() == old(self).sessions_map()[sid@].peers_set().insert(peer@)
                &&& pa.same_face(&pb)
                &&& pa.attached_set() == pb.attached_set().insert(peer@)
                &&& pa.owner() == (if pb.owner() is None {
                    Some(peer@)
                } else {
                    pb.owner()
                })
                &&& pa.has_pty_spec() == pb.has_pty_spec()
                &&& pa.state_spec() == pb.state_spec()
            },
    {
        if !self.has_pane_at(sid, wid, pid) {
            return Err(invalid_state("no such pane"));
        }
        let p = self.pane_mut_at(sid, wid, pid);
        let r = p.attach_peer(peer);
        proof {
            Self::lemma_pane_change_wf(*old(self), *self, sid@, wid@, pid@);
        }
        let ghost mid = *self;
        match value_mut(&mut self.sessions, sid.get()) {
            Some(s) => s.attach_peer(peer),
            None => {},
        }
        proof {
            assert(self.sessions_map().dom() =~= mid.sessions_map().dom());
            assert forall|k: u64| #[trigger] self.sessions_map().contains_key(k) implies {
                &&& self.sessions_map()[k].wf()
                &&& self.sessions_map()[k].id_spec()@ == k
                &&& 0 < k <= self.allocs_spec().session.last()
            } by {
                assert(mid.sessions_map().contains_key(k));
            }
            assert forall|k: u64| #[trigger] self.peers_map().contains_key(k) implies {
                &&& self.peers_map()[k].id@ == k
                &&& 0 < k <= self.allocs_spec().peer.last()
            } by {
                assert(mid.peers_map().contains_key(k));
            }
        }
        r
    }

    /// Detaches `peer` from a pane, dropping its tap; if it owned the input,
    /// ownership passes to the least remaining attached peer, or to nobody.
    pub fn detach_peer_from_pane(&mut self, sid: SessionId, wid: WindowId, pid: PaneId, peer: PeerId) -> (r:
        Result<(), Error>)
        requires
            old(self).wf(),
        ensures
            final(self).wf(),
            r is Err <==> !old(self).has_pane(sid@, wid@, pid@),
            r matches Err(e) ==> e is InvalidState && Self::same_state(*final(self), *old(self)),
            r is Ok ==> {
                let pb = old(self).pane_at(sid@, wid@, pid@);
                let pa = final(self).pane_at(sid@, wid@, pid@);
                &&& Self::only_pane_changed(*old(self), *final(self), sid@, wid@, pid@)
                &&& Self::session_peers_kept(*old(self), *final(self), sid@)
                &&& pa.same_face(&pb)
                &&& pa.attached_set() == pb.attached_set().remove(peer@)
                &&& pa.has_pty_spec() == pb.has_pty_spec()
                &&& pa.state_spec() == pb.state_spec()
                &&& pb.owner() != Some(peer@) ==> pa.owner() == pb.owner()
                &&& pb.owner() == Some(peer@) ==> match pa.owner() {
                    None => pa.attached_set() == Set::<u64>::empty(),
                    Some(o) => is_least(o, pa.attached_set()),
                }
            },
    {
        if !self.has_pane_at(sid, wid, pid) {
            return Err(invalid_state("no such pane"));
        }
        let p = self.pane_mut_at(sid, wid, pid);
        p.detach_peer(peer);
        proof {
            Self::lemma_pane_change_wf(*old(self), *self, sid@, wid@, pid@);
        }
        Ok(())
    }

    /// Hands the input of a pane to an attached peer, or to nobody.
    pub fn set_input_owner(&mut self, sid: SessionId, wid: WindowId, pid: PaneId, who: Option<PeerId>) -> (r:
        Result<(), Error>)
        requires
            old(self).wf(),
        ensures
            final(self).wf(),
            r is Err <==> (!old(self).has_pane(sid@, wid@, pid@) || (who matches Some(w)
                && !old(self).pane_at(sid@, wid@, pid@).attached_set().contains(w@))),
            r matches Err(e) ==> e is InvalidState && Self::same_state(*final(self), *old(self)),
            r is Ok ==> {
                let pb = old(self).pane_at(sid@, wid@, pid@);
                let pa = final(self).pane_at(sid@, wid@, pid@);
                &&& Self::only_pane_changed(*old(self), *final(self), sid@, wid@, pid@)
                &&& Self::session_peers_kept(*old(self), *final(self), sid@)
                &&& pa.owner() == (match who {
                    Some(w) => Some(w@),
                    None => None,
                })
                &&& pa.same_face(&pb)
                &&& pa.attached_set() == pb.attached_set()
                &&& pa.has_pty_spec() == pb.has_pty_spec()
                &&& pa.state_spec() == pb.state_spec()
            },
    {
        match self.pane_ref(sid, wid, pid) {
            None => {
                return Err(invalid_state("no such pane"));
            },
            Some(p) => match who {
                Some(w) => {
                    if !p.is_attached(w) {
                        return Err(invalid_state("peer not attached"));
                    }
                },
                None => {},
            },
        }
        let p = self.pane_mut_at(sid, wid, pid);
        let r = p.set_input_owner(who);
        proof {
            Self::lemma_pane_change_wf(*old(self), *self, sid@, wid@, pid@);
        }
        r
    }

    /// The PTY that input from `peer` goes to: the pane must exist, have a PTY and
    /// have `peer` as input owner.
    pub fn write_from(&self, sid: SessionId, wid: WindowId, pid: PaneId, peer: PeerId) -> (r: Result<
        &PtyHandle,
        Error,
    >)
        ensures
            r is Ok <==> (self.has_pane(sid@, wid@, pid@) && self.pane_at(sid@, wid@, pid@).owner() == Some(
                peer@,
            ) && self.pane_at(sid@, wid@, pid@).has_pty_spec()),
            r matches Err(e) ==> e is InvalidState,
    {
        match self.pane_ref(sid, wid, pid) {
            None => Err(invalid_state("no such pane")),
            Some(p) => p.write_from(peer),
        }
    }

    /// Runs a freshly spawned PTY in an `Empty` pane, subscribing every attached
    /// peer. A missing pane, or one that already has a PTY, refuses.
    pub fn spawn_pane_program(&mut self, sid: SessionId, wid: WindowId, pid: PaneId, handle: PtyHandle) -> (r:
        Result<(), Error>)
        requires
            old(self).wf(),
        ensures
            final(self).wf(),
            r is Err <==> (!old(self).has_pane(sid@, wid@, pid@) || old(self).pane_at(
                sid@,
                wid@,
                pid@,
            ).has_pty_spec()),
            r matches Err(e) ==> e is InvalidState && Self::same_state(*final(self), *old(self)),
            r is Ok ==> {
                let pb = old(self).pane_at(sid@, wid@, pid@);
                let pa = final(self).pane_at(sid@, wid@, pid@);
                &&& Self::only_pane_changed(*old(self), *final(self), sid@, wid@, pid@)
                &&& Self::session_peers_kept(*old(self), *final(self), sid@)
                &&& pa.same_face(&pb)
                &&& pa.has_pty_spec()
                &&& pa.state_spec() is Running
                &&& pa.attached_set() == pb.attached_set()
                &&& pa.tap_keys() == pb.attached_set()
                &&& (pb.owner() is Some ==> pa.owner() == pb.owner())
                &&& (pb.owner() is None ==> match pa.owner() {
                    None => pb.attached_set() == Set::<u64>::empty(),
                    Some(o) => is_least(o, pb.attached_set()),
                })
            },
    {
        match self.pane_ref(sid, wid, pid) {
            None => {
                return Err(invalid_state("no such pane"));
            },
            Some(p) => {
                if p.has_pty() {
                    return Err(invalid_state("pane already spawned"));
                }
            },
        }
        let p = self.pane_mut_at(sid, wid, pid);
        let r = p.spawn(handle);
        proof {
            Self::lemma_pane_change_wf(*old(self), *self, sid@, wid@, pid@);
        }
        r
    }

    /// Takes note of an exit status observed for a pane, as `Pane::latch_exit`
    /// does.
    pub fn latch_pane_exit(&mut self, sid: SessionId, wid: WindowId, pid: PaneId, seen: Option<ExitStatus>) -> (r:
        Result<(), Error>)
        requires
            old(self).wf(),
        ensures
            final(self).wf(),
            r is Err <==> !old(self).has_pane(sid@, wid@, pid@),
            r matches Err(e) ==> e is InvalidState && Self::same_state(*final(self), *old(self)),
            r is Ok ==> {
                let pb = old(self).pane_at(sid@, wid@, pid@);
                let pa = final(self).pane_at(sid@, wid@, pid@);
                &&& Self::only_pane_changed(*old(self), *final(self), sid@, wid@, pid@)
                &&& Self::session_peers_kept(*old(self), *final(self), sid@)
                &&& pa.same_face(&pb)
                &&& pa.has_pty_spec() == pb.has_pty_spec()
                &&& pa.attached_set() == pb.attached_set()
                &&& pa.tap_keys() == pb.tap_keys()
                &&& pa.owner() == pb.owner()
                &&& pa.state_spec() == latched(pb.state_spec(), seen)
            },
    {
        if !self.has_pane_at(sid, wid, pid) {
            return Err(invalid_state("no such pane"));
        }
        let p = self.pane_mut_at(sid, wid, pid);
        p.latch_exit(seen);
        proof {
            Self::lemma_pane_change_wf(*old(self), *self, sid@, wid@, pid@);
        }
        Ok(())
    }

    /// Peeks at a pane's exit watch and latches `Exited` on first sight.
    pub fn poll_pane_exit(&mut self, sid: SessionId, wid: WindowId, pid: PaneId) -> (r: Result<(), Error>)
        requires
            old(self).wf(),
        ensures
            final(self).wf(),
            r is Err <==> !old(self).has_pane(sid@, wid@, pid@),
            r matches Err(e) ==> e is InvalidState && Self::same_state(*final(self), *old(self)),
            r is Ok ==> {
                let pb = old(self).pane_at(sid@, wid@, pid@);
                let pa = final(self).pane_at(sid@, wid@, pid@);
                &&& Self::only_pane_changed(*old(self), *final(self), sid@, wid@, pid@)
                &&& Self::session_peers_kept(*old(self), *final(self), sid@)
                &&& pa.same_face(&pb)
                &&& pa.has_pty_spec() == pb.has_pty_spec()
                &&& pa.attached_set() == pb.attached_set()
                &&& pa.owner() == pb.owner()
                &&& exit_poll_step(pb.state_spec(), pa.state_spec())
            },
    {
        let seen = match self.pane_ref(sid, wid, pid) {
            Some(p) => p.observe_exit(),
            None => None,
        };
        self.latch_pane_exit(sid, wid, pid, seen)
    }

    /// Asks the child of a pane to end: a kill when `force`, else a terminate.
    pub fn kill_pane(&mut self, sid: SessionId, wid: WindowId, pid: PaneId, force: bool) -> (r: Result<(), Error>)
        requires
            old(self).wf(),
        ensures
            final(self).wf(),
            !old(self).has_pane(sid@, wid@, pid@) ==> (r matches Err(e) && e is InvalidState),
            !old(self).has_pane(sid@, wid@, pid@) ==> Self::same_state(*final(self), *old(self)),
            old(self).has_pane(sid@, wid@, pid@) ==> {
                &&& Self::only_pane_changed(*old(self), *final(self), sid@, wid@, pid@)
                &&& Self::session_peers_kept(*old(self), *final(self), sid@)
                &&& final(self).pane_at(sid@, wid@, pid@) == old(self).pane_at(sid@, wid@, pid@)
                &&& (!old(self).pane_at(sid@, wid@, pid@).has_pty_spec() ==> r is Ok)
                &&& (r matches Err(e) ==> (e matches Error::Pty(pe) && pe is Io))
            },
    {
        if !self.has_pane_at(sid, wid, pid) {
            return Err(invalid_state("no such pane"));
        }
        let p = self.pane_mut_at(sid, wid, pid);
        let r = p.kill(force);
        proof {
            Self::lemma_pane_change_wf(*old(self), *self, sid@, wid@, pid@);
        }
        r
    }

    /// The session and window that hold pane `pid`, if any.
    pub fn locate_pane(&self, pid: PaneId) -> (r: Option<(SessionId, WindowId)>)
        requires
            self.wf(),
        ensures
            r matches Some((s, w)) ==> self.has_pane(s@, w@, pid@),
            r is None ==> forall|s: u64, w: u64| !self.has_pane(s, w, pid@),
    {
        let sids = self.session_ids();
        let mut i: usize = 0;
        while i < sids.len()
            invariant
                self.wf(),
                i <= sids@.len(),
                lists_in_order(session_numbers(sids@), self.sessions_map().dom()),
                forall|k: int, w: u64| 0 <= k < i ==> !(#[trigger] self.has_pane(sids@[k]@, w, pid@)),
            decreases sids@.len() - i,
        {
            let sid = sids[i];
            assert(session_numbers(sids@)[i as int] == sid@);
            assert(session_numbers(sids@).to_set().contains(sid@));
            match self.sessions.get(&sid.get()) {
                Some(s) => {
                    let wids = s.window_ids();
                    let mut j: usize = 0;
                    while j < wids.len()
                        invariant
                            self.wf(),
                            s.wf(),
                            self.sessions_map().contains_key(sid@),
                            *s == self.sessions_map()[sid@],
                            j <= wids@.len(),
                            lists_in_order(window_numbers(wids@), s.windows_map().dom()),
                            forall|k: int| 0 <= k < j ==> !self.has_pane(sid@, (#[trigger] wids@[k])@, pid@),
                        decreases wids@.len() - j,
                    {
                        let wid = wids[j];
                        assert(window_numbers(wids@)[j as int] == wid@);
                        if self.has_pane_at(sid, wid, pid) {
                            return Some((sid, wid));
                        }
                        j = j + 1;
                    }
                    assert forall|w: u64| !self.has_pane(sid@, w, pid@) by {
                        if self.has_pane(sid@, w, pid@) {
                            assert(window_numbers(wids@).to_set().contains(w));
                            let k = choose|k: int| 0 <= k < window_numbers(wids@).len() && window_numbers(wids@)[k] == w;
                            assert(wids@[k]@ == w);
                        }
                    }
                },
                None => {},
            }
            i = i + 1;
        }
        assert forall|s: u64, w: u64| !self.has_pane(s, w, pid@) by {
            if self.has_pane(s, w, pid@) {
                assert(session_numbers(sids@).to_set().contains(s));
                let k = choose|k: int| 0 <= k < session_numbers(sids@).len() && session_numbers(sids@)[k] == s;
                assert(sids@[k]@ == s);
            }
        }
        None
    }

    /// The session that holds window `wid`, if any.
    pub fn locate_window(&self, wid: WindowId) -> (r: Option<SessionId>)
        requires
            self.wf(),
        ensures
            r matches Some(s) ==> self.has_window(s@, wid@),
            r is None ==> forall|s: u64| !self.has_window(s, wid@),
    {
        let sids = self.session_ids();
        let mut i: usize = 0;
        while i < sids.len()
            invariant
                self.wf(),
                i <= sids@.len(),
                lists_in_order(session_numbers(sids@), self.sessions_map().dom()),
                forall|k: int| 0 <= k < i ==> !self.has_window(#[trigger] sids@[k]@, wid@),
            decreases sids@.len() - i,
        {
            let sid = sids[i];
            assert(session_numbers(sids@)[i as int] == sid@);
            match self.sessions.get(&sid.get()) {
                Some(s) => {
                    if s.window(wid).is_some() {
                        return Some(sid);
                    }
                },
                None => {},
            }
            i = i + 1;
        }
        assert forall|s: u64| !self.has_window(s, wid@) by {
            if self.has_window(s, wid@) {
                assert(session_numbers(sids@).to_set().contains(s));
                let k = choose|k: int| 0 <= k < session_numbers(sids@).len() && session_numbers(sids@)[k] == s;
                assert(sids@[k]@ == s);
            }
        }
        None
    }

    /// Removes `peer` from the peer set of session `sid`, if the session exists.
    pub fn leave_session(&mut self, sid: SessionId, peer: PeerId)
        requires
            old(self).wf(),
        ensures
            final(self).wf(),
            final(self).allocs_spec() == old(self).allocs_spec(),
            final(self).peers_map() == old(self).peers_map(),
            final(self).sessions_map().dom() == old(self).sessions_map().dom(),
            forall|k: u64| k != sid@ && #[trigger] old(self).sessions_map().contains_key(k)
                ==> final(self).sessions_map()[k] == old(self).sessions_map()[k],
            old(self).sessions_map().contains_key(sid@) ==> {
                let sb = old(self).sessions_map()[sid@];
                let sa = final(self).sessions_map()[sid@];
                &&& sa.peers_set() == sb.peers_set().remove(peer@)
                &&& sa.windows_map() == sb.windows_map()
                &&& sa.focused_spec() == sb.focused_spec()
                &&& sa.id_spec() == sb.id_spec()
                &&& sa.name_spec() == sb.name_spec()
            },
    {
        let k = sid.get();
        if self.sessions.contains_key(&k) {
            match value_mut(&mut self.sessions, k) {
                Some(s) => s.detach_peer(peer),
                None => {},
            }
        }
        proof {
            assert(self.sessions_map().dom() =~= old(self).sessions_map().dom());
            self.lemma_frame(old(self));
        }
    }

    /// Forgets a peer.
    pub fn remove_peer(&mut self, peer: PeerId)
        requires
            old(self).wf(),
        ensures
            final(self).wf(),
            final(self).allocs_spec() == old(self).allocs_spec(),
            final(self).sessions_map() == old(self).sessions_map(),
            final(self).peers_map() == old(self).peers_map().remove(peer@),
    {
        self.peers.remove(&peer.get());
        proof {
            assert forall|k: u64| #[trigger] self.peers_map().contains_key(k) implies
                old(self).peers_map().contains_key(k) by {}
            assert forall|k: u64| #[trigger] self.sessions_map().contains_key(k) implies
                old(self).sessions_map().contains_key(k) by {}
        }
    }

    /// Takes the output queued on `peer`'s tap of a pane, and whether the tap had
    /// been dropped for falling behind.
    pub fn drain_pane_output(&mut self, sid: SessionId, wid: WindowId, pid: PaneId, peer: PeerId) -> (r: (
        Vec<ByteChunk>,
        bool,
    ))
        requires
            old(self).wf(),
        ensures
            final(self).wf(),
            final(self).sessions_map().dom() == old(self).sessions_map().dom(),
            !old(self).has_pane(sid@, wid@, pid@) ==> r.0@.len() == 0 && !r.1 && Self::same_state(*final(self), *old(self)),
            old(self).has_pane(sid@, wid@, pid@) ==> {
                let pb = old(self).pane_at(sid@, wid@, pid@);
                let pa = final(self).pane_at(sid@, wid@, pid@);
                &&& Self::only_pane_changed(*old(self), *final(self), sid@, wid@, pid@)
                &&& Self::session_peers_kept(*old(self), *final(self), sid@)
                &&& pa.same_face(&pb)
                &&& pa.attached_set() == pb.attached_set()
                &&& pa.tap_keys() == pb.tap_keys()
                &&& pa.owner() == pb.owner()
                &&& pa.state_spec() == pb.state_spec()
                &&& (!pb.tap_keys().contains(peer@) ==> r.0@.len() == 0 && !r.1)
            },
    {
        if !self.has_pane_at(sid, wid, pid) {
            return (Vec::new(), false);
        }
        let p = self.pane_mut_at(sid, wid, pid);
        let r = p.drain_tap(peer);
        proof {
            Self::lemma_pane_change_wf(*old(self), *self, sid@, wid@, pid@);
        }
        r
    }

    /// Removes a pane from its window; the window's focus moves as
    /// `Window::remove_pane` says.
    pub fn remove_pane(&mut self, sid: SessionId, wid: WindowId, pid: PaneId) -> (r: Option<Pane>)
        requires
            old(self).wf(),
        ensures
            final(self).wf(),
            r is Some <==> old(self).has_pane(sid@, wid@, pid@),
            r is None ==> Self::same_state(*final(self), *old(self)),
            r is Some ==> {
                let wb = old(self).window_at(sid@, wid@);
                let wa = final(self).window_at(sid@, wid@);
                &&& Self::only_window_changed(*old(self), *final(self), sid@, wid@)
                &&& Self::session_peers_kept(*old(self), *final(self), sid@)
                &&& final(self).allocs_spec() == old(self).allocs_spec()
                &&& wa.panes_map() == wb.panes_map().remove(pid@)
                &&& refocused(wb.focused_spec(), pid@, wa.focused_spec(), wa.panes_map().dom())
            },
    {
        if !self.has_pane_at(sid, wid, pid) {
            return None;
        }
        let r = match value_mut(&mut self.sessions, sid.get()) {
            Some(s) => match s.window_mut(wid) {
                Some(w) => w.remove_pane(pid),
                None => None,
            },
            None => None,
        };
        proof {
            let sb = old(self).sessions_map()[sid@];
            let sa = self.sessions_map()[sid@];
            assert(self.sessions_map().dom() =~= old(self).sessions_map().dom());
            assert(sa.windows_map().dom() =~= sb.windows_map().dom());
            assert(sa.wf()) by {
                assert forall|k: u64| #[trigger] sa.windows_map().contains_key(k) implies sa.windows_map()[k].wf()
                    && sa.windows_map()[k].id_spec()@ == k by {
                    assert(sb.windows_map().contains_key(k));
                }
            }
            self.lemma_frame(old(self));
        }
        r
    }

    /// Every pane of the state, or of the windows numbered like `window` when one
    /// is given, as (session, window, pane), in session, window and pane order.
    pub fn pane_paths(&self, window: Option<WindowId>) -> (r: Vec<(SessionId, WindowId, PaneId)>)
        requires
            self.wf(),
        ensures
            forall|i: int| 0 <= i < r@.len() ==> {
                &&& self.has_pane((#[trigger] r@[i]).0@, r@[i].1@, r@[i].2@)
                &&& window matches Some(x) ==> r@[i].1@ == x@
            },
            forall|s: u64, w: u64, p: u64| #[trigger] self.has_pane(s, w, p) && (window matches Some(x) ==> x@ == w)
                ==> exists|i: int| 0 <= i < r@.len() && r@[i].0@ == s && r@[i].1@ == w && (#[trigger] r@[i]).2@ == p,
    {
        let mut out: Vec<(SessionId, WindowId, PaneId)> = Vec::new();
        let sids = self.session_ids();
        let mut i: usize = 0;
        while i < sids.len()
            invariant
                self.wf(),
                i <= sids@.len(),
                lists_in_order(session_numbers(sids@), self.sessions_map().dom()),
                forall|k: int| 0 <= k < out@.len() ==> {
                    &&& self.has_pane((#[trigger] out@[k]).0@, out@[k].1@, out@[k].2@)
                    &&& window matches Some(x) ==> out@[k].1@ == x@
                },
                forall|k: int, w: u64, p: u64| 0 <= k < i && #[trigger] self.has_pane(sids@[k]@, w, p) && (window matches Some(x) ==> x@ == w)
                    ==> exists|m: int| 0 <= m < out@.len() && out@[m].0@ == sids@[k]@ && out@[m].1@ == w && (#[trigger] out@[m]).2@ == p,
            decreases sids@.len() - i,
        {
            let sid = sids[i];
            assert(session_numbers(sids@)[i as int] == sid@);
            assert(session_numbers(sids@).to_set().contains(sid@));
            let s = match self.sessions.get(&sid.get()) {
                Some(s) => s,
                None => vstd::pervasive::unreached(),
            };
            let ghost out_i = out@;
            let wids = s.window_ids();
            let mut j: usize = 0;
            while j < wids.len()
                invariant
                    self.wf(),
                    s.wf(),
                    self.sessions_map().contains_key(sid@),
                    *s == self.sessions_map()[sid@],
                    j <= wids@.len(),
                    lists_in_order(window_numbers(wids@), s.windows_map().dom()),
                    out_i.len() <= out@.len(),
                    forall|m: int| 0 <= m < out_i.len() ==> out@[m] == out_i[m],
                    forall|k: int| 0 <= k < out@.len() ==> {
                        &&& self.has_pane((#[trigger] out@[k]).0@, out@[k].1@, out@[k].2@)
                        &&& window matches Some(x) ==> out@[k].1@ == x@
                    },
                    forall|k: int, p: u64| 0 <= k < j && #[trigger] self.has_pane(sid@, wids@[k]@, p) && (window matches Some(x) ==> x@ == wids@[k]@)
                        ==> exists|m: int| 0 <= m < out@.len() && out@[m].0@ == sid@ && out@[m].1@ == wids@[k]@ && (#[trigger] out@[m]).2@ == p,
                decreases wids@.len() - j,
            {
                let wid = wids[j];
                assert(window_numbers(wids@)[j as int] == wid@);
                assert(window_numbers(wids@).to_set().contains(wid@));
                let ghost out_j = out@;
                let wanted = match window {
                    Some(x) => x.get() == wid.get(),
                    None => true,
                };
                if wanted {
                    let win = match s.window(wid) {
                        Some(w) => w,
                        None => vstd::pervasive::unreached(),
                    };
                    let pids = win.pane_ids();
                    let mut k: usize = 0;
                    while k < pids.len()
                        invariant
                            self.wf(),
                            self.has_window(sid@, wid@),
                            *win == self.window_at(sid@, wid@),
                            window matches Some(x) ==> x@ == wid@,
                            k <= pids@.len(),
                            lists_in_order(pane_numbers(pids@), win.panes_map().dom()),
                            out_j.len() <= out@.len(),
                            forall|m: int| 0 <= m < out_j.len() ==> out@[m] == out_j[m],
                            forall|q: int| 0 <= q < out@.len() ==> {
                                &&& self.has_pane((#[trigger] out@[q]).0@, out@[q].1@, out@[q].2@)
                                &&& window matches Some(x) ==> out@[q].1@ == x@
                            },
                            forall|q: int| 0 <= q < k ==> exists|m: int| 0 <= m < out@.len() && out@[m].0@ == sid@ && out@[m].1@
                                == wid@ && (#[trigger] out@[m]).2@ == (#[trigger] pids@[q])@,
                        decreases pids@.len() - k,
                    {
                        let pid = pids[k];
                        assert(pane_numbers(pids@)[k as int] == pid@);
                        assert(pane_numbers(pids@).to_set().contains(pid@));
                        let ghost before = out@;
                        out.push((sid, wid, pid));
                        assert forall|q: int| 0 <= q < k + 1 implies exists|m: int| 0 <= m < out@.len() && out@[m].0@ == sid@
                            && out@[m].1@ == wid@ && (#[trigger] out@[m]).2@ == (#[trigger] pids@[q])@ by {
                            if q < k {
                                let m = choose|m: int| 0 <= m < before.len() && before[m].0@ == sid@ && before[m].1@ == wid@
                                    && (#[trigger] before[m]).2@ == pids@[q]@;
                                assert(out@[m] == before[m]);
                            } else {
                                assert(out@[before.len() as int] == (sid, wid, pid));
                            }
                        }
                        k = k + 1;
                    }
                    assert forall|p: u64| #[trigger] self.has_pane(sid@, wid@, p) implies exists|m: int| 0 <= m < out@.len()
                        && out@[m].0@ == sid@ && out@[m].1@ == wid@ && (#[trigger] out@[m]).2@ == p by {
                        assert(pane_numbers(pids@).to_set().contains(p));
                        let q = choose|q: int| 0 <= q < pane_numbers(pids@).len() && pane_numbers(pids@)[q] == p;
                        assert(pids@[q]@ == p);
                    }
                }
                assert forall|kk: int, p: u64| 0 <= kk < j + 1 && #[trigger] self.has_pane(sid@, wids@[kk]@, p) && (window matches Some(x) ==> x@ == wids@[kk]@)
                    implies exists|m: int| 0 <= m < out@.len() && out@[m].0@ == sid@ && out@[m].1@ == wids@[kk]@ && (#[trigger] out@[m]).2@ == p by {
                    if kk < j {
                        let m = choose|m: int| 0 <= m < out_j.len() && out_j[m].0@ == sid@ && out_j[m].1@ == wids@[kk]@ && (#[trigger] out_j[m]).2@ == p;
                        assert(out@[m] == out_j[m]);
                    }
                }
                j = j + 1;
            }
            assert forall|kk: int, w: u64, p: u64| 0 <= kk < i + 1 && #[trigger] self.has_pane(sids@[kk]@, w, p) && (window matches Some(x) ==> x@ == w)
                implies exists|m: int| 0 <= m < out@.len() && out@[m].0@ == sids@[kk]@ && out@[m].1@ == w && (#[trigger] out@[m]).2@ == p by {
                if kk < i {
                    let m = choose|m: int| 0 <= m < out_i.len() && out_i[m].0@ == sids@[kk]@ && out_i[m].1@ == w && (#[trigger] out_i[m]).2@ == p;
                    assert(out@[m] == out_i[m]);
                } else {
                    assert(window_numbers(wids@).to_set().contains(w));
                    let q = choose|q: int| 0 <= q < window_numbers(wids@).len() && window_numbers(wids@)[q] == w;
                    assert(wids@[q]@ == w);
                    assert(self.has_pane(sid@, wids@[q]@, p));
                }
            }
            i = i + 1;
        }
        assert forall|s: u64, w: u64, p: u64| #[trigger] self.has_pane(s, w, p) && (window matches Some(x) ==> x@ == w)
            implies exists|i: int| 0 <= i < out@.len() && out@[i].0@ == s && out@[i].1@ == w && (#[trigger] out@[i]).2@ == p by {
            assert(session_numbers(sids@).to_set().contains(s));
            let k = choose|k: int| 0 <= k < session_numbers(sids@).len() && session_numbers(sids@)[k] == s;
            assert(sids@[k]@ == s);
            assert(self.has_pane(sids@[k]@, w, p));
        }
        out
    }
}

impl Default for ServerState {
    fn default() -> (r: Self)
        ensures
            r.wf(),
            r.sessions_map() == Map::<u64, Session>::empty(),
            r.peers_map() == Map::<u64, Peer>::empty(),
    {
        ServerState::new()
    }
}

} // verus!
