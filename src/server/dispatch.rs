use vstd::prelude::*;

use std::collections::{BTreeMap, BTreeSet};

use crate::common::idgen::{pane_numbers, peer_numbers, session_numbers, window_numbers, PaneId, PeerId, SessionId, WindowId};
use crate::common::maps::{keys_in_order, lists_in_order};
use crate::ipc::proto::{DetachTarget, ErrorCode, Event, KillTarget, Request, Response, SessionLite, StateScope};
use crate::pty::{ByteChunk, ExitStatus, Program, PtyConfig, PtyError, PtyHandle};
use crate::server::pane::{latched, PaneState, TermSize};
use crate::server::state::ServerState;

verus! {

broadcast use {vstd::laws_cmp::group_laws_cmp, vstd::std_specs::btree::group_btree_axioms};

/// Width of a pane created by `SpawnPane`.
pub const DEFAULT_COLS: u16 = 80;

/// Height of a pane created by `SpawnPane`.
pub const DEFAULT_ROWS: u16 = 24;

/// The pane a peer is attached to.
#[derive(Clone, Copy, PartialEq, Eq, Structural, Debug)]
pub struct Attachment {
    pub session: SessionId,
    pub window: WindowId,
    pub pane: PaneId,
}

/// A failed request, with its code and a short hint.
pub fn failure(code: ErrorCode, hint: &str) -> (r: Response)
    ensures
        r matches Response::Failure { code: c, .. } && c == code,
{
    Response::Failure { code, msg: hint.to_owned() }
}

/// The error code a response carries, if it is a failure.
pub open spec fn failure_code(r: Response) -> Option<ErrorCode> {
    match r {
        Response::Failure { code, .. } => Some(code),
        _ => None,
    }
}

/// `(w, p)` is the pane that `(sid, wid, pid)` names in `st`: the given window or,
/// without one, the session's focused window; the given pane or, without one,
/// that window's focused pane.
pub open spec fn resolves(
    st: ServerState,
    sid: u64,
    wid: Option<WindowId>,
    pid: Option<PaneId>,
    w: u64,
    p: u64,
) -> bool {
    &&& st.has_pane(sid, w, p)
    &&& match wid {
        Some(x) => x@ == w,
        None => st.sessions_map()[sid].focused_spec() == Some(w),
    }
    &&& match pid {
        Some(y) => y@ == p,
        None => st.window_at(sid, w).focused_spec() == Some(p),
    }
}

/// Identifiers of listed sessions.
pub open spec fn lite_ids(items: Seq<SessionLite>) -> Seq<SessionId> {
    items.map_values(|x: SessionLite| x.id)
}

/// A listed session carries the name of the session it lists.
pub open spec fn lists_name(st: ServerState, x: SessionLite) -> bool {
    x.name matches Some(n) && n@ == st.sessions_map()[x.id@].name_spec()
}

/// An event and the peer it goes to.
pub type Delivery = (PeerId, Event);

/// Whether peer number `q` is the one left out.
pub open spec fn left_out(except: Option<PeerId>, q: u64) -> bool {
    except matches Some(e) && e@ == q
}

/// `events` tells every peer of `peers` but the one left out the event `ev`, and
/// nobody else.
pub open spec fn announces(events: Seq<Delivery>, peers: Set<u64>, except: Option<PeerId>, ev: Event) -> bool {
    &&& forall|i: int| 0 <= i < events.len() ==> {
        &&& (#[trigger] events[i]).1 == ev
        &&& peers.contains(events[i].0@)
        &&& !left_out(except, events[i].0@)
    }
    &&& forall|q: u64| peers.contains(q) && !left_out(except, q) ==> exists|i: int| 0 <= i < events.len() && (
        #[trigger] events[i]).0@ == q
}

/// Each peer of `peers` but `peer` is told that `peer` attached at `a`.
pub open spec fn tells_attached(events: Seq<Delivery>, peers: Set<u64>, peer: PeerId, a: Attachment) -> bool {
    forall|q: u64| peers.contains(q) && q != peer@ ==> exists|i: int|
        0 <= i < events.len() && (#[trigger] events[i]).0@ == q && events[i].1 == (Event::PeerAttached {
            peer,
            session: a.session,
            window: a.window,
            pane: a.pane,
        })
}

/// A change of membership that the peers of a session hear about.
#[derive(Clone, Copy, PartialEq, Eq, Structural, Debug)]
pub enum Notice {
    Attached { peer: PeerId, session: SessionId, window: WindowId, pane: PaneId },
    Detached { peer: PeerId },
    Layout { window: WindowId },
}

pub open spec fn notice_event(n: Notice) -> Event {
    match n {
        Notice::Attached { peer, session, window, pane } => Event::PeerAttached { peer, session, window, pane },
        Notice::Detached { peer } => Event::PeerDetached { peer },
        Notice::Layout { window } => Event::LayoutChanged { window },
    }
}

impl Notice {
    pub fn event(self) -> (r: Event)
        ensures
            r == notice_event(self),
    {
        match self {
            Notice::Attached { peer, session, window, pane } => Event::PeerAttached { peer, session, window, pane },
            Notice::Detached { peer } => Event::PeerDetached { peer },
            Notice::Layout { window } => Event::LayoutChanged { window },
        }
    }
}

/// Addresses the event of `notice` to each of `peers` but the one left out.
pub fn announce(peers: &Vec<PeerId>, except: Option<PeerId>, notice: Notice) -> (r: Vec<Delivery>)
    ensures
        announces(r@, peer_numbers(peers@).to_set(), except, notice_event(notice)),
{
    let ghost ev = notice_event(notice);
    let mut out: Vec<Delivery> = Vec::new();
    let mut i: usize = 0;
    while i < peers.len()
        invariant
            i <= peers@.len(),
            ev == notice_event(notice),
            forall|k: int| 0 <= k < out@.len() ==> {
                &&& (#[trigger] out@[k]).1 == ev
                &&& peer_numbers(peers@).to_set().contains(out@[k].0@)
                &&& !left_out(except, out@[k].0@)
            },
            forall|j: int| 0 <= j < i && !left_out(except, (#[trigger] peers@[j])@) ==> exists|k: int| 0 <= k < out@.len()
                && (#[trigger] out@[k]).0@ == peers@[j]@,
        decreases peers@.len() - i,
    {
        let q = peers[i];
        assert(peer_numbers(peers@)[i as int] == q@);
        assert(peer_numbers(peers@).to_set().contains(q@));
        let ghost before = out@;
        let skip = match except {
            Some(e) => q.get() == e.get(),
            None => false,
        };
        if !skip {
            out.push((q, notice.event()));
            assert(out@[out@.len() - 1].0@ == q@);
        }
        assert forall|j: int| 0 <= j < i + 1 && !left_out(except, (#[trigger] peers@[j])@) implies exists|k: int| 0 <= k < out@.len()
            && (#[trigger] out@[k]).0@ == peers@[j]@ by {
            if j < i {
                let k = choose|k: int| 0 <= k < before.len() && (#[trigger] before[k]).0@ == peers@[j]@;
                assert(out@[k] == before[k]);
            } else {
                assert(out@[out@.len() - 1].0@ == peers@[j]@);
            }
        }
        i = i + 1;
    }
    assert forall|q: u64| peer_numbers(peers@).to_set().contains(q) && !left_out(except, q) implies exists|k: int| 0 <= k < out@.len()
        && (#[trigger] out@[k]).0@ == q by {
        let j = choose|j: int| 0 <= j < peer_numbers(peers@).len() && peer_numbers(peers@)[j] == q;
        assert(peers@[j]@ == q);
    }
    out
}

/// Whether a `Detach` target names where the peer is attached; no target names it.
pub open spec fn target_matches(target: Option<DetachTarget>, a: Attachment) -> bool {
    match target {
        None => true,
        Some(DetachTarget::Session(s)) => s@ == a.session@,
        Some(DetachTarget::Window(w)) => w@ == a.window@,
        Some(DetachTarget::Pane(p)) => p@ == a.pane@,
    }
}

/// A pane that the server created for `SpawnPane` and that now needs a PTY:
/// the caller spawns `program` with `config` and hands the result to
/// `Core::finish_spawn`.
#[derive(Debug)]
pub struct SpawnOrder {
    pub session: SessionId,
    pub window: WindowId,
    pub pane: PaneId,
    pub program: Program,
    pub config: PtyConfig,
}

/// What serving a request asks of the caller.
#[derive(Debug)]
pub enum Outcome {
    /// Send this response.
    Reply(Response),
    /// Spawn a PTY for a new pane, then call `Core::finish_spawn`.
    Spawn(SpawnOrder),
    /// Render a snapshot of the state for this scope as the `State` response.
    Snapshot(StateScope),
}

/// The window that `SpawnPane` puts its pane in: the given one, else the
/// session's focused window.
pub open spec fn spawn_window(st: ServerState, sid: u64, wid: Option<WindowId>) -> Option<u64> {
    match wid {
        Some(w) => Some(w@),
        None => st.sessions_map()[sid].focused_spec(),
    }
}

/// The error code of an outcome that replies with a failure.
pub open spec fn reply_code(o: Outcome) -> Option<ErrorCode> {
    match o {
        Outcome::Reply(r) => failure_code(r),
        _ => None,
    }
}

/// The single owner of the server state: it serves requests one at a time and
/// says which events go to which peers.
pub struct Core {
    state: ServerState,
    attachments: BTreeMap<u64, Attachment>,
    doomed: BTreeSet<u64>,
}

impl Core {
    pub closed spec fn state_spec(&self) -> ServerState {
        self.state
    }

    /// Where each peer is attached, by the number of its identifier.
    pub closed spec fn attachments_map(&self) -> Map<u64, Attachment> {
        self.attachments@
    }

    /// Numbers of the panes that were killed and go once their child has exited.
    pub closed spec fn doomed_set(&self) -> Set<u64> {
        self.doomed@
    }

    pub open spec fn wf(&self) -> bool {
        &&& self.state_spec().wf()
        &&& !self.attachments_map().contains_key(0)
    }

    pub fn new() -> (r: Self)
        ensures
            r.wf(),
            r.state_spec().sessions_map() == Map::<u64, crate::server::session::Session>::empty(),
            r.attachments_map() == Map::<u64, Attachment>::empty(),
    {
        Core { state: ServerState::new(), attachments: BTreeMap::new(), doomed: BTreeSet::new() }
    }

    pub fn state(&self) -> (r: &ServerState)
        ensures
            *r == self.state_spec(),
    {
        &self.state
    }

    /// Where `peer` is attached, if anywhere.
    pub fn attachment(&self, peer: PeerId) -> (r: Option<Attachment>)
        ensures
            r is Some <==> self.attachments_map().contains_key(peer@),
            r matches Some(a) ==> a == self.attachments_map()[peer@],
    {
        match self.attachments.get(&peer.get()) {
            Some(a) => Some(*a),
            None => None,
        }
    }

    /// Registers a new connection; `None` once identifiers are exhausted.
    pub fn register_peer(&mut self, name: &str) -> (r: Option<PeerId>)
        requires
            old(self).wf(),
        ensures
            final(self).wf(),
            r is None <==> !(old(self).state_spec().allocs_spec().peer.last() < u64::MAX),
            r matches Some(p) ==> {
                &&& !old(self).state_spec().peers_map().contains_key(p@)
                &&& final(self).state_spec().peers_map().contains_key(p@)
                &&& final(self).state_spec().sessions_map() == old(self).state_spec().sessions_map()
            },
    {
        if !self.state.can_allocate_peer() {
            return None;
        }
        Some(self.state.new_peer(name))
    }

    /// `CreateSession`: a new empty session named `name` (empty when absent).
    pub fn create_session(&mut self, name: Option<String>) -> (r: Response)
        requires
            old(self).wf(),
        ensures
            final(self).wf(),
            create_session_post(*old(self), *final(self), name, r),
    {
        if !self.state.can_allocate_session() {
            return failure(ErrorCode::Internal, "session identifiers exhausted");
        }
        let sid = match &name {
            Some(n) => self.state.new_session(n.as_str()),
            None => self.state.new_session(""),
        };
        proof {
            reveal_strlit("");
            assert(""@ =~= Seq::<char>::empty());
            assert(self.state_spec().sessions_map()[sid@].name_spec() == match name {
                Some(n) => n@,
                None => Seq::<char>::empty(),
            });
        }
        Response::SessionCreated { session: sid }
    }

    /// `ListSessions`: every session's identifier and name, in identifier order.
    pub fn list_sessions(&self) -> (r: Response)
        requires
            self.wf(),
        ensures
            list_sessions_post(*self, r),
    {
        let ids = self.state.session_ids();
        let mut items: Vec<SessionLite> = Vec::new();
        let mut i: usize = 0;
        while i < ids.len()
            invariant
                self.wf(),
                i <= ids@.len(),
                crate::common::maps::lists_in_order(session_numbers(ids@), self.state_spec().sessions_map().dom()),
                lite_ids(items@) == ids@.subrange(0, i as int),
                forall|k: int| 0 <= k < items@.len() ==> lists_name(self.state_spec(), #[trigger] items@[k]),
            decreases ids@.len() - i,
        {
            let sid = ids[i];
            assert(session_numbers(ids@)[i as int] == sid@);
            assert(session_numbers(ids@).to_set().contains(sid@));
            match self.state.session(sid) {
                Some(s) => {
                    let ghost before = items@;
                    items.push(SessionLite { id: sid, name: Some(s.name().to_owned()) });
                    assert(lite_ids(items@) =~= lite_ids(before).push(sid));
                },
                None => {},
            }
            assert(ids@.subrange(0, i + 1) =~= ids@.subrange(0, i as int).push(ids@[i as int]));
            i = i + 1;
        }
        assert(ids@.subrange(0, i as int) =~= ids@);
        Response::Sessions { items }
    }

    /// `CreateWindow`: a new window in session `sid`, titled `title` (empty when
    /// absent). A missing session is `NotFound`.
    pub fn create_window(&mut self, sid: SessionId, title: Option<String>) -> (r: Response)
        requires
            old(self).wf(),
        ensures
            final(self).wf(),
            create_window_post(*old(self), *final(self), sid, title, r),
    {
        if self.state.session(sid).is_none() {
            return failure(ErrorCode::NotFound, "no such session");
        }
        if !self.state.can_allocate_window() {
            return failure(ErrorCode::Internal, "window identifiers exhausted");
        }
        let r = match &title {
            Some(t) => self.state.new_window(sid, t.as_str()),
            None => self.state.new_window(sid, ""),
        };
        match r {
            Ok(w) => Response::WindowCreated { window: w },
            Err(_) => failure(ErrorCode::Internal, "window identifier already in use"),
        }
    }

    /// The pane that `(sid, wid, pid)` names: the given window or the session's
    /// focused one, then the given pane or that window's focused one.
    pub fn resolve(&self, sid: SessionId, wid: Option<WindowId>, pid: Option<PaneId>) -> (r: Option<
        (WindowId, PaneId),
    >)
        requires
            self.wf(),
        ensures
            r matches Some((w, p)) ==> resolves(self.state_spec(), sid@, wid, pid, w@, p@),
            r is None ==> forall|w: u64, p: u64| !resolves(self.state_spec(), sid@, wid, pid, w, p),
    {
        let s = match self.state.session(sid) {
            Some(s) => s,
            None => {
                return None;
            },
        };
        let w = match wid {
            Some(x) => x,
            None => match s.focused() {
                Some(x) => x,
                None => {
                    return None;
                },
            },
        };
        let win = match s.window(w) {
            Some(win) => win,
            None => {
                return None;
            },
        };
        let p = match pid {
            Some(y) => y,
            None => match win.focused() {
                Some(y) => y,
                None => {
                    return None;
                },
            },
        };
        if win.pane(p).is_none() {
            return None;
        }
        Some((w, p))
    }

    /// `Attach`: `peer` joins the pane that `(sid, wid, pid)` names. A peer is
    /// attached to one pane at a time, so it first leaves the pane it was on;
    /// leaving a session is announced to that session's remaining peers. The
    /// other peers of the joined session hear `PeerAttached`. A target that names
    /// no pane is `NotFound`.
    pub fn attach(&mut self, peer: PeerId, sid: SessionId, wid: Option<WindowId>, pid: Option<PaneId>) -> (r: (
        Response,
        Vec<Delivery>,
    ))
        requires
            old(self).wf(),
        ensures
            final(self).wf(),
            attach_post(*old(self), *final(self), peer, sid, wid, pid, r),
    {
        let (w, p) = match self.resolve(sid, wid, pid) {
            Some(t) => t,
            None => {
                return (failure(ErrorCode::NotFound, "no such pane"), Vec::new());
            },
        };
        let target = Attachment { session: sid, window: w, pane: p };
        let prev = self.attachment(peer);
        let _ = self.state.attach_peer_to_pane(sid, w, p, peer);
        let mut events: Vec<Delivery> = Vec::new();
        match prev {
            Some(a) => {
                if a.session.get() != sid.get() || a.window.get() != w.get() || a.pane.get() != p.get() {
                    let ghost s1 = self.state;
                    let _ = self.state.detach_peer_from_pane(a.session, a.window, a.pane, peer);
                    proof {
                        lemma_other_pane_kept(s1, self.state, sid@, w@, p@, a.session@, a.window@, a.pane@);
                    }
                    if a.session.get() != sid.get() {
                        self.state.leave_session(a.session, peer);
                        match self.state.session(a.session) {
                            Some(s) => {
                                let rest = s.peer_ids();
                                events = announce(&rest, Some(peer), Notice::Detached { peer });
                            },
                            None => {},
                        }
                    }
                }
            },
            None => {},
        }
        self.attachments.insert(peer.get(), target);
        let members = match self.state.session(sid) {
            Some(s) => s.peer_ids(),
            None => Vec::new(),
        };
        let mut joined = announce(&members, Some(peer), Notice::Attached { peer, session: sid, window: w, pane: p });
        let ghost first = events@;
        let ghost second = joined@;
        events.append(&mut joined);
        proof {
            assert(self.state.sessions_map().contains_key(sid@));
            assert(peer_numbers(members@).to_set() == self.state.sessions_map()[sid@].peers_set());
            assert forall|q: u64| self.state.sessions_map()[sid@].peers_set().contains(q) && q != peer@ implies exists|i: int|
                0 <= i < events@.len() && (#[trigger] events@[i]).0@ == q && events@[i].1 == (Event::PeerAttached {
                    peer,
                    session: sid,
                    window: w,
                    pane: p,
                }) by {
                assert(peer_numbers(members@).to_set().contains(q));
                let i = choose|i: int| 0 <= i < second.len() && (#[trigger] second[i]).0@ == q;
                assert(events@[first.len() + i] == second[i]);
            }
        }
        assert(self.attachments_map()[peer@] == target);
        assert(tells_attached(events@, self.state_spec().sessions_map()[sid@].peers_set(), peer, target));
        (Response::Attached, events)
    }

    /// `Detach`: `peer` leaves the pane it is attached to, and its session; the
    /// session's remaining peers hear `PeerDetached`. A peer that is not attached,
    /// or a target other than where it is, is `NotAttached`.
    pub fn detach(&mut self, peer: PeerId, target: Option<DetachTarget>) -> (r: (Response, Vec<Delivery>))
        requires
            old(self).wf(),
        ensures
            final(self).wf(),
            detach_post(*old(self), *final(self), peer, target, r),
    {
        let a = match self.attachment(peer) {
            Some(a) => a,
            None => {
                return (failure(ErrorCode::NotAttached, "peer is not attached"), Vec::new());
            },
        };
        let matches = match target {
            None => true,
            Some(DetachTarget::Session(s)) => s.get() == a.session.get(),
            Some(DetachTarget::Window(w)) => w.get() == a.window.get(),
            Some(DetachTarget::Pane(p)) => p.get() == a.pane.get(),
        };
        if !matches {
            return (failure(ErrorCode::NotAttached, "not attached there"), Vec::new());
        }
        let _ = self.state.detach_peer_from_pane(a.session, a.window, a.pane, peer);
        self.state.leave_session(a.session, peer);
        self.attachments.remove(&peer.get());
        let rest = match self.state.session(a.session) {
            Some(s) => s.peer_ids(),
            None => Vec::new(),
        };
        let events = announce(&rest, Some(peer), Notice::Detached { peer });
        (Response::Detached, events)
    }

    /// Forgets a peer whose connection ended: it leaves the pane it was attached
    /// to (input ownership passes on), its session hears `PeerDetached`, and the
    /// peer itself is dropped.
    pub fn unregister_peer(&mut self, peer: PeerId) -> (r: Vec<Delivery>)
        requires
            old(self).wf(),
        ensures
            final(self).wf(),
            !final(self).attachments_map().contains_key(peer@),
            !final(self).state_spec().peers_map().contains_key(peer@),
            final(self).attachments_map() == old(self).attachments_map().remove(peer@),
            !old(self).attachments_map().contains_key(peer@) ==> r@.len() == 0,
            old(self).attachments_map().contains_key(peer@) ==> {
                let a = old(self).attachments_map()[peer@];
                let st = final(self).state_spec();
                st.sessions_map().contains_key(a.session@) ==> announces(
                    r@,
                    st.sessions_map()[a.session@].peers_set(),
                    Some(peer),
                    Event::PeerDetached { peer },
                )
            },
    {
        let (_, events) = self.detach(peer, None);
        self.state.remove_peer(peer);
        events
    }

    /// Signals every pane of window `wid` of session `sid` with
    /// `kill_signal(force)` and records each as killed; `false` when some signal
    /// failed, which only a pane with a PTY can cause.
    fn kill_window_panes(&mut self, sid: SessionId, wid: WindowId, force: bool) -> (r: bool)
        requires
            old(self).wf(),
            old(self).state_spec().has_window(sid@, wid@),
        ensures
            final(self).wf(),
            final(self).attachments_map() == old(self).attachments_map(),
            panes_kept(old(self).state_spec(), final(self).state_spec()),
            old(self).doomed_set().subset_of(final(self).doomed_set()),
            forall|p: u64| #[trigger] old(self).state_spec().has_pane(sid@, wid@, p) ==> final(self).doomed_set().contains(p),
            (forall|p: u64| #[trigger] old(self).state_spec().has_pane(sid@, wid@, p)
                ==> !old(self).state_spec().pane_at(sid@, wid@, p).has_pty_spec()) ==> r,
    {
        let ids = match self.state.session(sid) {
            Some(s) => match s.window(wid) {
                Some(w) => w.pane_ids(),
                None => Vec::new(),
            },
            None => Vec::new(),
        };
        let ghost st0 = self.state;
        let mut ok = true;
        let mut i: usize = 0;
        while i < ids.len()
            invariant
                self.wf(),
                i <= ids@.len(),
                st0 == old(self).state_spec(),
                self.attachments_map() == old(self).attachments_map(),
                lists_in_order(pane_numbers(ids@), st0.window_at(sid@, wid@).panes_map().dom()),
                st0.has_window(sid@, wid@),
                panes_kept(st0, self.state_spec()),
                old(self).doomed_set().subset_of(self.doomed_set()),
                forall|j: int| 0 <= j < i ==> self.doomed_set().contains((#[trigger] ids@[j])@),
                !ok ==> exists|j: int| 0 <= j < i && st0.pane_at(sid@, wid@, (#[trigger] ids@[j])@).has_pty_spec(),
            decreases ids@.len() - i,
        {
            let ghost before = self.state;
            let pid = ids[i];
            assert(pane_numbers(ids@)[i as int] == pid@);
            assert(pane_numbers(ids@).to_set().contains(pid@));
            assert(before.has_window(sid@, wid@));
            assert(before.has_pane(sid@, wid@, pid@));
            let res = self.state.kill_pane(sid, wid, pid, force);
            if res.is_err() {
                ok = false;
            }
            self.doomed.insert(pid.get());
            proof {
                lemma_kill_keeps(before, self.state, sid@, wid@, pid@);
                lemma_panes_kept_trans(st0, before, self.state);
            }
            i = i + 1;
        }
        proof {
            assert forall|p: u64| #[trigger] st0.has_pane(sid@, wid@, p) implies self.doomed_set().contains(p) by {
                assert(pane_numbers(ids@).to_set().contains(p));
                let j = choose|j: int| 0 <= j < pane_numbers(ids@).len() && pane_numbers(ids@)[j] == p;
                assert(ids@[j]@ == p);
            }
            if !ok {
                let j = choose|j: int| 0 <= j < i && st0.pane_at(sid@, wid@, (#[trigger] ids@[j])@).has_pty_spec();
                assert(pane_numbers(ids@)[j] == ids@[j]@);
                assert(pane_numbers(ids@).to_set().contains(ids@[j]@));
                assert(st0.has_pane(sid@, wid@, ids@[j]@));
            }
        }
        ok
    }

    /// `Kill`: signals every pane of the target with `kill_signal(force)`, a kill
    /// when `force` and a terminate otherwise; each pane signalled is recorded and
    /// goes once its child has exited. A target that does not exist is
    /// `NotFound`; a signal the system refused is `Internal`, so a target whose
    /// panes have no PTY is always `Killed`.
    pub fn kill(&mut self, target: KillTarget, force: bool) -> (r: Response)
        requires
            old(self).wf(),
        ensures
            final(self).wf(),
            kill_post(*old(self), *final(self), target, force, r),
    {
        match target {
            KillTarget::Pane(p) => match self.state.locate_pane(p) {
                None => failure(ErrorCode::NotFound, "no such pane"),
                Some((s, w)) => match self.state.kill_pane(s, w, p, force) {
                    Ok(()) => {
                        self.doomed.insert(p.get());
                        Response::Killed
                    },
                    Err(_) => failure(ErrorCode::Internal, "signal failed"),
                },
            },
            KillTarget::Window(w) => match self.state.locate_window(w) {
                None => failure(ErrorCode::NotFound, "no such window"),
                Some(s) => if self.kill_window_panes(s, w, force) {
                    Response::Killed
                } else {
                    failure(ErrorCode::Internal, "signal failed")
                },
            },
            KillTarget::Session(s) => {
                let wids = match self.state.session(s) {
                    Some(sess) => sess.window_ids(),
                    None => {
                        return failure(ErrorCode::NotFound, "no such session");
                    },
                };
                let ghost st0 = self.state;
                let mut ok = true;
                let mut i: usize = 0;
                while i < wids.len()
                    invariant
                        self.wf(),
                        i <= wids@.len(),
                        st0 == old(self).state_spec(),
                        self.attachments_map() == old(self).attachments_map(),
                        st0.sessions_map().contains_key(s@),
                        lists_in_order(window_numbers(wids@), st0.sessions_map()[s@].windows_map().dom()),
                        panes_kept(st0, self.state_spec()),
                        old(self).doomed_set().subset_of(self.doomed_set()),
                        forall|j: int, p: u64| 0 <= j < i && #[trigger] st0.has_pane(s@, wids@[j]@, p) ==> self.doomed_set().contains(p),
                        !ok ==> exists|j: int, p: u64| 0 <= j < i && #[trigger] st0.has_pane(s@, wids@[j]@, p)
                            && st0.pane_at(s@, wids@[j]@, p).has_pty_spec(),
                    decreases wids@.len() - i,
                {
                    let ghost before = self.state;
                    let ghost d0 = self.doomed@;
                    let wid = wids[i];
                    assert(window_numbers(wids@)[i as int] == wid@);
                    assert(window_numbers(wids@).to_set().contains(wid@));
                    assert(st0.has_window(s@, wid@));
                    assert(before.has_window(s@, wid@));
                    let done = self.kill_window_panes(s, wid, force);
                    if !done {
                        ok = false;
                    }
                    proof {
                        lemma_panes_kept_trans(st0, before, self.state);
                        assert forall|p: u64| #[trigger] st0.has_pane(s@, wid@, p) implies before.has_pane(s@, wid@, p)
                            && before.pane_at(s@, wid@, p) == st0.pane_at(s@, wid@, p) by {
                            assert(st0.has_window(s@, wid@));
                        }
                        if !done {
                            let p = choose|p: u64| #[trigger] before.has_pane(s@, wid@, p) && before.pane_at(s@, wid@, p).has_pty_spec();
                            assert(st0.has_pane(s@, wid@, p));
                        }
                        assert forall|j: int, p: u64| 0 <= j < i + 1 && #[trigger] st0.has_pane(s@, wids@[j]@, p)
                            implies self.doomed_set().contains(p) by {
                            if j < i {
                                assert(d0.contains(p));
                            } else {
                                assert(before.has_pane(s@, wid@, p));
                            }
                        }
                    }
                    i = i + 1;
                }
                proof {
                    assert forall|w: u64, p: u64| #[trigger] st0.has_pane(s@, w, p) implies self.doomed_set().contains(p) by {
                        assert(window_numbers(wids@).to_set().contains(w));
                        let j = choose|j: int| 0 <= j < window_numbers(wids@).len() && window_numbers(wids@)[j] == w;
                        assert(wids@[j]@ == w);
                        assert(st0.has_pane(s@, wids@[j]@, p));
                    }
                }
                if ok {
                    Response::Killed
                } else {
                    failure(ErrorCode::Internal, "signal failed")
                }
            },
        }
    }

    /// `SpawnPane`: creates an `Empty` pane of the default size in the given
    /// window, or the session's focused one, and orders a PTY for it. An empty
    /// argument vector is `InvalidArgs`; a missing session or window is
    /// `NotFound`.
    pub fn spawn_pane(
        &mut self,
        sid: SessionId,
        wid: Option<WindowId>,
        title: Option<String>,
        cwd: Option<String>,
        argv: Vec<String>,
    ) -> (r: Outcome)
        requires
            old(self).wf(),
        ensures
            final(self).wf(),
            spawn_pane_post(*old(self), *final(self), sid, wid, title, cwd, argv, r),
    {
        if argv.len() == 0 {
            return Outcome::Reply(failure(ErrorCode::InvalidArgs, "empty argv"));
        }
        let s = match self.state.session(sid) {
            Some(s) => s,
            None => {
                return Outcome::Reply(failure(ErrorCode::NotFound, "no such session"));
            },
        };
        let w = match wid {
            Some(w) => w,
            None => match s.focused() {
                Some(w) => w,
                None => {
                    return Outcome::Reply(failure(ErrorCode::NotFound, "session has no window"));
                },
            },
        };
        if s.window(w).is_none() {
            return Outcome::Reply(failure(ErrorCode::NotFound, "no such window"));
        }
        if !self.state.can_allocate_pane() {
            return Outcome::Reply(failure(ErrorCode::Internal, "pane identifiers exhausted"));
        }
        let size = TermSize::new(DEFAULT_COLS, DEFAULT_ROWS);
        let made = match &title {
            Some(t) => self.state.new_pane(sid, w, t.as_str(), size),
            None => self.state.new_pane(sid, w, "", size),
        };
        match made {
            Ok(p) => Outcome::Spawn(
                SpawnOrder {
                    session: sid,
                    window: w,
                    pane: p,
                    program: Program::Argv { argv },
                    config: PtyConfig { cols: DEFAULT_COLS, rows: DEFAULT_ROWS, cwd, env: Vec::new(), term: None },
                },
            ),
            Err(_) => Outcome::Reply(failure(ErrorCode::Internal, "pane identifier already in use")),
        }
    }

    /// Completes a `SpawnPane` with what spawning gave: the pane starts running
    /// and every attached peer is subscribed. A failed spawn, or a pane that is
    /// gone or already has a PTY, is `Internal`.
    pub fn finish_spawn(&mut self, order: &SpawnOrder, spawned: Result<PtyHandle, PtyError>) -> (r: Response)
        requires
            old(self).wf(),
        ensures
            final(self).wf(),
            final(self).attachments_map() == old(self).attachments_map(),
            r is PaneSpawned <==> (spawned is Ok && old(self).state_spec().has_pane(
                order.session@,
                order.window@,
                order.pane@,
            ) && !old(self).state_spec().pane_at(order.session@, order.window@, order.pane@).has_pty_spec()),
            !(r is PaneSpawned) ==> failure_code(r) == Some(ErrorCode::Internal),
            r matches Response::PaneSpawned { session, window, pane } ==> {
                let st = final(self).state_spec();
                &&& session == order.session && window == order.window && pane == order.pane
                &&& st.has_pane(session@, window@, pane@)
                &&& st.pane_at(session@, window@, pane@).has_pty_spec()
                &&& st.pane_at(session@, window@, pane@).state_spec() is Running
            },
    {
        match spawned {
            Err(_) => failure(ErrorCode::Internal, "spawn failed"),
            Ok(h) => match self.state.spawn_pane_program(order.session, order.window, order.pane, h) {
                Ok(()) => Response::PaneSpawned { session: order.session, window: order.window, pane: order.pane },
                Err(_) => failure(ErrorCode::Internal, "pane cannot take a PTY"),
            },
        }
    }

    /// Serves one request from `peer`: the outcome for the caller and the events
    /// for peers. A pane that `SpawnPane` adds is announced to every peer of its
    /// session as `LayoutChanged`.
    pub fn handle(&mut self, peer: PeerId, req: Request) -> (r: (Outcome, Vec<Delivery>))
        requires
            old(self).wf(),
        ensures
            final(self).wf(),
            handle_post(*old(self), *final(self), peer, req, r),
    {
        match req {
            Request::CreateSession { name } => (Outcome::Reply(self.create_session(name)), Vec::new()),
            Request::ListSessions => (Outcome::Reply(self.list_sessions()), Vec::new()),
            Request::CreateWindow { session, title } => (Outcome::Reply(self.create_window(session, title)), Vec::new()),
            Request::SpawnPane { session, window, title, cwd, argv } => {
                let outcome = self.spawn_pane(session, window, title, cwd, argv);
                let events = match &outcome {
                    Outcome::Spawn(order) => match self.state.session(session) {
                        Some(s) => {
                            let members = s.peer_ids();
                            announce(&members, None, Notice::Layout { window: order.window })
                        },
                        None => Vec::new(),
                    },
                    _ => Vec::new(),
                };
                (outcome, events)
            },
            Request::Attach { session, window, pane } => {
                let (resp, events) = self.attach(peer, session, window, pane);
                (Outcome::Reply(resp), events)
            },
            Request::Detach { target } => {
                let (resp, events) = self.detach(peer, target);
                (Outcome::Reply(resp), events)
            },
            Request::Kill { target, force } => (Outcome::Reply(self.kill(target, force)), Vec::new()),
            Request::GetState { scope } => (Outcome::Snapshot(scope), Vec::new()),
        }
    }

    /// Drains the tap of every attached peer on the pane it is attached to, in
    /// increasing peer order: one record per attached peer, with the chunks
    /// taken and whether the source had dropped its tap for falling behind.
    pub fn pump_output(&mut self) -> (r: Vec<Drained>)
        requires
            old(self).wf(),
        ensures
            final(self).wf(),
            final(self).attachments_map() == old(self).attachments_map(),
            lists_in_order(drained_peers(r@), old(self).attachments_map().dom()),
            forall|i: int| 0 <= i < r@.len() ==> old(self).attachments_map()[(#[trigger] r@[i]).peer@].pane == r@[i].pane,
    {
        let peers = keys_in_order(&self.attachments);
        let mut out: Vec<Drained> = Vec::new();
        let mut i: usize = 0;
        while i < peers.len()
            invariant
                self.wf(),
                i <= peers@.len(),
                self.attachments_map() == old(self).attachments_map(),
                lists_in_order(peers@, self.attachments_map().dom()),
                drained_peers(out@) == peers@.subrange(0, i as int),
                forall|k: int| 0 <= k < out@.len() ==> self.attachments_map()[(#[trigger] out@[k]).peer@].pane == out@[k].pane,
            decreases peers@.len() - i,
        {
            let k = peers[i];
            assert(peers@.to_set().contains(peers@[i as int]));
            let a = match self.attachments.get(&k) {
                Some(a) => *a,
                None => vstd::pervasive::unreached(),
            };
            let peer = PeerId::from_nonzero(k);
            let (chunks, dropped) = self.state.drain_pane_output(a.session, a.window, a.pane, peer);
            let ghost before = out@;
            out.push(Drained { peer, pane: a.pane, chunks, dropped });
            assert(drained_peers(out@) =~= drained_peers(before).push(k));
            assert(peers@.subrange(0, i + 1) =~= peers@.subrange(0, i as int).push(k));
            i = i + 1;
        }
        assert(peers@.subrange(0, i as int) =~= peers@);
        out
    }

    /// Takes note of the exit status observed for one pane: a running pane with
    /// `Some(s)` becomes `Exited(s)`. A killed pane whose child has exited is then
    /// removed from its window, and every peer of its session hears
    /// `LayoutChanged`.
    pub fn apply_exit(&mut self, sid: SessionId, wid: WindowId, pid: PaneId, seen: Option<ExitStatus>) -> (r: Vec<
        Delivery,
    >)
        requires
            old(self).wf(),
        ensures
            final(self).wf(),
            final(self).attachments_map() == old(self).attachments_map(),
            !old(self).state_spec().has_pane(sid@, wid@, pid@) ==> {
                &&& r@.len() == 0
                &&& ServerState::same_state(final(self).state_spec(), old(self).state_spec())
                &&& final(self).doomed_set() == old(self).doomed_set()
            },
            old(self).state_spec().has_pane(sid@, wid@, pid@) ==> {
                let st0 = old(self).state_spec();
                let st = final(self).state_spec();
                let now = latched(st0.pane_at(sid@, wid@, pid@).state_spec(), seen);
                &&& st.sessions_map().dom() == st0.sessions_map().dom()
                &&& st.has_window(sid@, wid@)
                &&& if old(self).doomed_set().contains(pid@) && now is Exited {
                    &&& !st.has_pane(sid@, wid@, pid@)
                    &&& st.window_at(sid@, wid@).panes_map() == st0.window_at(sid@, wid@).panes_map().remove(pid@)
                    &&& final(self).doomed_set() == old(self).doomed_set().remove(pid@)
                    &&& announces(r@, st.sessions_map()[sid@].peers_set(), None, Event::LayoutChanged { window: wid })
                } else {
                    &&& st.has_pane(sid@, wid@, pid@)
                    &&& st.pane_at(sid@, wid@, pid@).state_spec() == now
                    &&& final(self).doomed_set() == old(self).doomed_set()
                    &&& r@.len() == 0
                }
            },
    {
        if !self.state.has_pane_at(sid, wid, pid) {
            return Vec::new();
        }
        let _ = self.state.latch_pane_exit(sid, wid, pid, seen);
        let ghost mid = self.state;
        if self.doomed.contains(&pid.get()) {
            let exited = match self.state.pane_ref(sid, wid, pid) {
                Some(p) => match p.state() {
                    PaneState::Exited(_) => true,
                    _ => false,
                },
                None => false,
            };
            if exited {
                let _ = self.state.remove_pane(sid, wid, pid);
                self.doomed.remove(&pid.get());
                proof {
                    assert(self.state.window_at(sid@, wid@).panes_map() =~= old(self).state.window_at(sid@, wid@).panes_map().remove(pid@));
                }
                let members = match self.state.session(sid) {
                    Some(s) => s.peer_ids(),
                    None => Vec::new(),
                };
                return announce(&members, None, Notice::Layout { window: wid });
            }
        }
        Vec::new()
    }

    /// Latches `Exited` on every running pane whose child has exited, and removes
    /// each killed pane whose child has exited; every peer of its session hears
    /// `LayoutChanged`.
    pub fn poll_exits(&mut self) -> (r: Vec<Delivery>)
        requires
            old(self).wf(),
        ensures
            final(self).wf(),
            final(self).attachments_map() == old(self).attachments_map(),
            forall|i: int| 0 <= i < r@.len() ==> (#[trigger] r@[i]).1 is LayoutChanged,
    {
        let mut events: Vec<Delivery> = Vec::new();
        let sids = self.state.session_ids();
        let mut i: usize = 0;
        while i < sids.len()
            invariant
                self.wf(),
                i <= sids@.len(),
                self.attachments_map() == old(self).attachments_map(),
                forall|m: int| 0 <= m < events@.len() ==> (#[trigger] events@[m]).1 is LayoutChanged,
            decreases sids@.len() - i,
        {
            let sid = sids[i];
            let wids = match self.state.session(sid) {
                Some(s) => s.window_ids(),
                None => Vec::new(),
            };
            let mut j: usize = 0;
            while j < wids.len()
                invariant
                    self.wf(),
                    j <= wids@.len(),
                    self.attachments_map() == old(self).attachments_map(),
                    forall|m: int| 0 <= m < events@.len() ==> (#[trigger] events@[m]).1 is LayoutChanged,
                decreases wids@.len() - j,
            {
                let wid = wids[j];
                let pids = match self.state.session(sid) {
                    Some(s) => match s.window(wid) {
                        Some(w) => w.pane_ids(),
                        None => Vec::new(),
                    },
                    None => Vec::new(),
                };
                let mut k: usize = 0;
                while k < pids.len()
                    invariant
                        self.wf(),
                        k <= pids@.len(),
                        self.attachments_map() == old(self).attachments_map(),
                        forall|m: int| 0 <= m < events@.len() ==> (#[trigger] events@[m]).1 is LayoutChanged,
                    decreases pids@.len() - k,
                {
                    let pid = pids[k];
                    let seen = match self.state.pane_ref(sid, wid, pid) {
                        Some(p) => p.observe_exit(),
                        None => None,
                    };
                    let mut more = self.apply_exit(sid, wid, pid, seen);
                    let ghost before = events@;
                    let ghost added = more@;
                    events.append(&mut more);
                    assert forall|m: int| 0 <= m < events@.len() implies (#[trigger] events@[m]).1 is LayoutChanged by {
                        if m >= before.len() {
                            assert(events@[m] == added[m - before.len()]);
                        }
                    }
                    k = k + 1;
                }
                j = j + 1;
            }
            i = i + 1;
        }
        events
    }
}

/// What `Core::list_sessions` guarantees of its result `r`: every session's
/// identifier, in increasing order, with its name.
pub open spec fn list_sessions_post(c: Core, r: Response) -> bool {
    r matches Response::Sessions { items } && {
        &&& crate::common::maps::lists_in_order(session_numbers(lite_ids(items@)), c.state_spec().sessions_map().dom())
        &&& forall|i: int| 0 <= i < items@.len() ==> lists_name(c.state_spec(), #[trigger] items@[i])
    }
}

/// The response an outcome replies with, if it replies.
pub open spec fn reply_of(o: Outcome) -> Option<Response> {
    match o {
        Outcome::Reply(r) => Some(r),
        _ => None,
    }
}

/// What `Core::handle` guarantees: each request is served as the method it
/// stands for says, and `GetState` leaves the state alone for a snapshot.
pub open spec fn handle_post(before: Core, after: Core, peer: PeerId, req: Request, r: (Outcome, Vec<Delivery>)) -> bool {
    match req {
        Request::CreateSession { name } => {
            &&& r.1@.len() == 0
            &&& reply_of(r.0) is Some
            &&& create_session_post(before, after, name, reply_of(r.0)->0)
        },
        Request::ListSessions => {
            &&& r.1@.len() == 0
            &&& after == before
            &&& reply_of(r.0) is Some
            &&& list_sessions_post(before, reply_of(r.0)->0)
        },
        Request::CreateWindow { session, title } => {
            &&& r.1@.len() == 0
            &&& reply_of(r.0) is Some
            &&& create_window_post(before, after, session, title, reply_of(r.0)->0)
        },
        Request::SpawnPane { session, window, title, cwd, argv } => {
            &&& spawn_pane_post(before, after, session, window, title, cwd, argv, r.0)
            &&& match r.0 {
                Outcome::Spawn(o) => announces(
                    r.1@,
                    after.state_spec().sessions_map()[session@].peers_set(),
                    None,
                    Event::LayoutChanged { window: o.window },
                ),
                _ => r.1@.len() == 0,
            }
        },
        Request::Attach { session, window, pane } => {
            &&& reply_of(r.0) is Some
            &&& attach_post(before, after, peer, session, window, pane, (reply_of(r.0)->0, r.1))
        },
        Request::Detach { target } => {
            &&& reply_of(r.0) is Some
            &&& detach_post(before, after, peer, target, (reply_of(r.0)->0, r.1))
        },
        Request::Kill { target, force } => {
            &&& r.1@.len() == 0
            &&& reply_of(r.0) is Some
            &&& kill_post(before, after, target, force, reply_of(r.0)->0)
        },
        Request::GetState { scope } => {
            &&& r.1@.len() == 0
            &&& after == before
            &&& r.0 == Outcome::Snapshot(scope)
        },
    }
}

/// What `Core::create_session` guarantees of `after` and of its result `r`.
pub open spec fn create_session_post(before: Core, after: Core, name: Option<String>, r: Response) -> bool {
    &&& (before.state_spec().allocs_spec().session.last() < u64::MAX ==> (r matches Response::SessionCreated { session } && {
                &&& !before.state_spec().sessions_map().contains_key(session@)
                &&& after.state_spec().sessions_map().contains_key(session@)
                &&& after.state_spec().sessions_map()[session@].name_spec() == match name {
                    Some(n) => n@,
                    None => Seq::<char>::empty(),
                }
            }))
    &&& (!(before.state_spec().allocs_spec().session.last() < u64::MAX) ==> failure_code(r)
                == Some(ErrorCode::Internal))
}

/// What `Core::create_window` guarantees of `after` and of its result `r`.
pub open spec fn create_window_post(before: Core, after: Core, sid: SessionId, title: Option<String>, r: Response) -> bool {
    &&& (!before.state_spec().sessions_map().contains_key(sid@) ==> failure_code(r) == Some(ErrorCode::NotFound))
    &&& (r matches Response::WindowCreated { window } ==> {
                &&& before.state_spec().sessions_map().contains_key(sid@)
                &&& !before.state_spec().has_window(sid@, window@)
                &&& after.state_spec().has_window(sid@, window@)
            })
    &&& (r is WindowCreated || failure_code(r) is Some)
    &&& (before.state_spec().sessions_map().contains_key(sid@) && before.state_spec().allocs_spec().window.last() < u64::MAX
                ==> r is WindowCreated)
}

/// What `Core::attach` guarantees of `after` and of its result `r`.
pub open spec fn attach_post(before: Core, after: Core, peer: PeerId, sid: SessionId, wid: Option<WindowId>, pid: Option<PaneId>, r: (Response, Vec<Delivery>)) -> bool {
    &&& (r.0 is Attached <==> exists|w: u64, p: u64| resolves(before.state_spec(), sid@, wid, pid, w, p))
    &&& (!(r.0 is Attached) ==> {
                &&& failure_code(r.0) == Some(ErrorCode::NotFound)
                &&& r.1@.len() == 0
                &&& ServerState::same_state(after.state_spec(), before.state_spec())
                &&& after.attachments_map() == before.attachments_map()
            })
    &&& (r.0 is Attached ==> {
                let a = after.attachments_map()[peer@];
                let st = after.state_spec();
                &&& after.attachments_map().contains_key(peer@)
                &&& a.session == sid
                &&& resolves(before.state_spec(), sid@, wid, pid, a.window@, a.pane@)
                &&& st.has_pane(sid@, a.window@, a.pane@)
                &&& st.pane_at(sid@, a.window@, a.pane@).attached_set().contains(peer@)
                &&& st.sessions_map()[sid@].peers_set().contains(peer@)
                &&& tells_attached(r.1@, st.sessions_map()[sid@].peers_set(), peer, a)
            })
}

/// What `Core::detach` guarantees of `after` and of its result `r`.
pub open spec fn detach_post(before: Core, after: Core, peer: PeerId, target: Option<DetachTarget>, r: (Response, Vec<Delivery>)) -> bool {
    &&& (r.0 is Detached <==> (before.attachments_map().contains_key(peer@) && target_matches(
                target,
                before.attachments_map()[peer@],
            )))
    &&& (!(r.0 is Detached) ==> {
                &&& failure_code(r.0) == Some(ErrorCode::NotAttached)
                &&& r.1@.len() == 0
                &&& ServerState::same_state(after.state_spec(), before.state_spec())
                &&& after.attachments_map() == before.attachments_map()
            })
    &&& (r.0 is Detached ==> {
                let a = before.attachments_map()[peer@];
                let st = after.state_spec();
                &&& after.attachments_map() == before.attachments_map().remove(peer@)
                &&& before.state_spec().has_pane(a.session@, a.window@, a.pane@) ==> {
                    &&& st.has_pane(a.session@, a.window@, a.pane@)
                    &&& st.pane_at(a.session@, a.window@, a.pane@).attached_set() == before.state_spec().pane_at(
                        a.session@,
                        a.window@,
                        a.pane@,
                    ).attached_set().remove(peer@)
                }
                &&& st.sessions_map().contains_key(a.session@) ==> {
                    &&& !st.sessions_map()[a.session@].peers_set().contains(peer@)
                    &&& announces(r.1@, st.sessions_map()[a.session@].peers_set(), Some(peer), Event::PeerDetached { peer })
                }
            })
}

/// What `Core::kill` guarantees of `after` and of its result `r`.
pub open spec fn kill_post(before: Core, after: Core, target: KillTarget, force: bool, r: Response) -> bool {
    &&& (after.attachments_map() == before.attachments_map())
    &&& (before.doomed_set().subset_of(after.doomed_set()))
    &&& (failure_code(r) == Some(ErrorCode::NotFound) <==> match target {
                KillTarget::Session(s) => !before.state_spec().sessions_map().contains_key(s@),
                KillTarget::Window(w) => forall|s: u64| !before.state_spec().has_window(s, w@),
                KillTarget::Pane(p) => forall|s: u64, w: u64| !before.state_spec().has_pane(s, w, p@),
            })
    &&& (r is Killed || failure_code(r) == Some(ErrorCode::NotFound) || failure_code(r) == Some(
                ErrorCode::Internal,
            ))
    &&& (failure_code(r) != Some(ErrorCode::NotFound) && no_pty_in(before.state_spec(), target) ==> r is Killed)
    &&& (r is Killed ==> match target {
                KillTarget::Pane(p) => after.doomed_set().contains(p@),
                KillTarget::Window(w) => exists|s: u64| #[trigger] before.state_spec().has_window(s, w@)
                    && forall|p: u64| #[trigger] before.state_spec().has_pane(s, w@, p) ==> after.doomed_set().contains(p),
                KillTarget::Session(s) => forall|w: u64, p: u64| #[trigger] before.state_spec().has_pane(s@, w, p)
                    ==> after.doomed_set().contains(p),
            })
}

/// What `Core::spawn_pane` guarantees of `after` and of its result `r`.
pub open spec fn spawn_pane_post(before: Core, after: Core, sid: SessionId, wid: Option<WindowId>, title: Option<String>, cwd: Option<String>, argv: Vec<String>, r: Outcome) -> bool {
    &&& (after.attachments_map() == before.attachments_map())
    &&& (argv@.len() == 0 ==> reply_code(r) == Some(ErrorCode::InvalidArgs))
    &&& (argv@.len() > 0 && !before.state_spec().sessions_map().contains_key(sid@) ==> reply_code(r) == Some(
                ErrorCode::NotFound,
            ))
    &&& (r is Snapshot ==> false)
    &&& (argv@.len() > 0 && before.state_spec().sessions_map().contains_key(sid@) && (spawn_window(
                before.state_spec(),
                sid@,
                wid,
            ) matches Some(w) && before.state_spec().has_window(sid@, w) && before.state_spec().allocs_spec().pane.last()
                < u64::MAX) ==> r is Spawn)
    &&& (r matches Outcome::Spawn(o) ==> {
                let st = after.state_spec();
                &&& argv@.len() > 0
                &&& o.session == sid
                &&& (wid matches Some(w) ==> o.window == w)
                &&& (wid is None ==> before.state_spec().sessions_map()[sid@].focused_spec() == Some(o.window@))
                &&& before.state_spec().has_window(sid@, o.window@)
                &&& !before.state_spec().has_pane(sid@, o.window@, o.pane@)
                &&& st.has_pane(sid@, o.window@, o.pane@)
                &&& st.pane_at(sid@, o.window@, o.pane@).state_spec() is Empty
                &&& st.pane_at(sid@, o.window@, o.pane@).size_spec() == (TermSize { cols: DEFAULT_COLS, rows: DEFAULT_ROWS })
                &&& o.program matches Program::Argv { argv: a } && a@ == argv@
                &&& o.config.cols == DEFAULT_COLS
                &&& o.config.rows == DEFAULT_ROWS
                &&& o.config.cwd == cwd
                &&& o.config.env@.len() == 0
                &&& o.config.term is None
            })
}

/// What draining one peer's tap gave.
pub struct Drained {
    pub peer: PeerId,
    pub pane: PaneId,
    pub chunks: Vec<ByteChunk>,
    pub dropped: bool,
}

/// Numbers of the peers of a run of records.
pub open spec fn drained_peers(rs: Seq<Drained>) -> Seq<u64> {
    rs.map_values(|d: Drained| d.peer@)
}

/// Each chunk of `cs`, addressed to `peer` and tagged with `pane`.
pub open spec fn tagged(peer: PeerId, pane: PaneId, cs: Seq<ByteChunk>) -> Seq<(PeerId, PaneId, ByteChunk)> {
    cs.map_values(|c: ByteChunk| (peer, pane, c))
}

/// The chunks of a run of records, in record order and drain order.
pub open spec fn chunk_list(rs: Seq<Drained>) -> Seq<(PeerId, PaneId, ByteChunk)>
    decreases rs.len(),
{
    if rs.len() == 0 {
        Seq::empty()
    } else {
        tagged(rs[0].peer, rs[0].pane, rs[0].chunks@) + chunk_list(rs.drop_first())
    }
}

/// The peers whose tap was dropped, each with its pane, in record order.
pub open spec fn drop_list(rs: Seq<Drained>) -> Seq<(PeerId, PaneId)>
    decreases rs.len(),
{
    if rs.len() == 0 {
        Seq::empty()
    } else {
        (if rs[0].dropped {
            seq![(rs[0].peer, rs[0].pane)]
        } else {
            Seq::empty()
        }) + drop_list(rs.drop_first())
    }
}

/// Turns drained records into what the peers are sent: each chunk as output of
/// its pane, and one `StreamDropNotice` owed for each dropped tap.
pub fn deliveries(records: Vec<Drained>) -> (r: (Vec<(PeerId, PaneId, ByteChunk)>, Vec<(PeerId, PaneId)>))
    ensures
        r.0@ == chunk_list(records@),
        r.1@ == drop_list(records@),
{
    let ghost orig = records@;
    let mut rs = records;
    let mut out: Vec<(PeerId, PaneId, ByteChunk)> = Vec::new();
    let mut drops: Vec<(PeerId, PaneId)> = Vec::new();
    while rs.len() > 0
        invariant
            out@ + chunk_list(rs@) == chunk_list(orig),
            drops@ + drop_list(rs@) == drop_list(orig),
        decreases rs@.len(),
    {
        let ghost rs0 = rs@;
        let d = rs.remove(0);
        assert(rs@ =~= rs0.drop_first());
        let ghost out0 = out@;
        let ghost drops0 = drops@;
        if d.dropped {
            drops.push((d.peer, d.pane));
        }
        assert(drops@ + drop_list(rs@) =~= drops0 + drop_list(rs0));
        let mut cs = d.chunks;
        let ghost cs0 = cs@;
        while cs.len() > 0
            invariant
                out@ + tagged(d.peer, d.pane, cs@) == out0 + tagged(d.peer, d.pane, cs0),
            decreases cs@.len(),
        {
            let ghost before = cs@;
            let ghost o1 = out@;
            let c = cs.remove(0);
            out.push((d.peer, d.pane, c));
            assert(tagged(d.peer, d.pane, before) =~= seq![(d.peer, d.pane, c)] + tagged(d.peer, d.pane, cs@));
            assert(out@ + tagged(d.peer, d.pane, cs@) =~= o1 + tagged(d.peer, d.pane, before));
        }
        assert(tagged(d.peer, d.pane, cs@) =~= Seq::<(PeerId, PaneId, ByteChunk)>::empty());
        assert(out@ =~= out0 + tagged(d.peer, d.pane, cs0));
        assert(out@ + chunk_list(rs@) =~= out0 + chunk_list(rs0));
    }
    assert(out@ =~= out@ + chunk_list(rs@));
    assert(drops@ =~= drops@ + drop_list(rs@));
    (out, drops)
}

proof fn lemma_drop_list_in(rs: Seq<Drained>, i: int)
    requires
        forall|a: int, b: int| 0 <= a < b < rs.len() ==> rs[a].peer@ < rs[b].peer@,
    ensures
        forall|a: int, b: int| 0 <= a < b < drop_list(rs).len() ==> drop_list(rs)[a].0@ < drop_list(rs)[b].0@,
        forall|a: int| 0 <= a < drop_list(rs).len() ==> exists|k: int| 0 <= k < rs.len() && (#[trigger] rs[k]).dropped
            && #[trigger] drop_list(rs)[a] == (rs[k].peer, rs[k].pane),
        0 <= i < rs.len() && rs[i].dropped ==> exists|a: int| 0 <= a < drop_list(rs).len() && drop_list(rs)[a] == (
            rs[i].peer,
            rs[i].pane,
        ),
    decreases rs.len(),
{
    if rs.len() > 0 {
        let t = rs.drop_first();
        lemma_drop_list_in(t, i - 1);
        let head = if rs[0].dropped {
            seq![(rs[0].peer, rs[0].pane)]
        } else {
            Seq::<(PeerId, PaneId)>::empty()
        };
        let dl = drop_list(rs);
        assert(dl == head + drop_list(t));
        assert forall|a: int| 0 <= a < drop_list(t).len() implies rs[0].peer@ < (#[trigger] drop_list(t)[a]).0@ by {
            let k = choose|k: int| 0 <= k < t.len() && t[k].dropped && drop_list(t)[a] == (t[k].peer, t[k].pane);
            assert(t[k] == rs[k + 1]);
        }
        assert forall|a: int| 0 <= a < dl.len() implies exists|k: int| 0 <= k < rs.len() && (#[trigger] rs[k]).dropped
            && #[trigger] dl[a] == (rs[k].peer, rs[k].pane) by {
            if a >= head.len() {
                let k = choose|k: int| 0 <= k < t.len() && t[k].dropped && drop_list(t)[a - head.len()] == (t[k].peer, t[k].pane);
                assert(t[k] == rs[k + 1]);
            } else {
                assert(dl[a] == (rs[0].peer, rs[0].pane));
            }
        }
        if 0 < i < rs.len() && rs[i].dropped {
            assert(t[i - 1] == rs[i]);
            let a = choose|a: int| 0 <= a < drop_list(t).len() && drop_list(t)[a] == (t[i - 1].peer, t[i - 1].pane);
            assert(dl[a + head.len()] == drop_list(t)[a]);
        }
        if i == 0 && rs[0].dropped {
            assert(dl[0] == (rs[0].peer, rs[0].pane));
        }
    }
}

/// A dropped tap is owed exactly one `StreamDropNotice`: when the records come
/// in increasing peer order, as `Core::pump_output` gives them, each peer whose
/// tap was dropped appears in the drop list once, with its pane, and no peer
/// appears there twice.
pub proof fn lemma_one_notice_per_drop(rs: Seq<Drained>, i: int)
    requires
        forall|a: int, b: int| 0 <= a < b < rs.len() ==> rs[a].peer@ < rs[b].peer@,
        0 <= i < rs.len(),
        rs[i].dropped,
    ensures
        exists|a: int| 0 <= a < drop_list(rs).len() && drop_list(rs)[a] == (rs[i].peer, rs[i].pane),
        forall|a: int, b: int| 0 <= a < drop_list(rs).len() && 0 <= b < drop_list(rs).len() && drop_list(rs)[a].0
            == drop_list(rs)[b].0 ==> a == b,
{
    lemma_drop_list_in(rs, i);
    assert forall|a: int, b: int| 0 <= a < drop_list(rs).len() && 0 <= b < drop_list(rs).len() && drop_list(rs)[a].0
        == drop_list(rs)[b].0 implies a == b by {
        if a < b {
            assert(drop_list(rs)[a].0@ < drop_list(rs)[b].0@);
        } else if b < a {
            assert(drop_list(rs)[b].0@ < drop_list(rs)[a].0@);
        }
    }
}

/// Every window of `before` is in `after` with the same panes, and the sessions
/// are the same by number.
pub open spec fn panes_kept(before: ServerState, after: ServerState) -> bool {
    &&& after.sessions_map().dom() == before.sessions_map().dom()
    &&& forall|s: u64, w: u64| #[trigger] before.has_window(s, w) ==> {
        &&& after.has_window(s, w)
        &&& after.window_at(s, w).panes_map() == before.window_at(s, w).panes_map()
    }
}

/// No pane that `target` names has a PTY.
pub open spec fn no_pty_in(st: ServerState, target: KillTarget) -> bool {
    match target {
        KillTarget::Pane(p) => forall|s: u64, w: u64| #[trigger] st.has_pane(s, w, p@) ==> !st.pane_at(s, w, p@).has_pty_spec(),
        KillTarget::Window(wid) => forall|s: u64, p: u64| #[trigger] st.has_pane(s, wid@, p) ==> !st.pane_at(s, wid@, p).has_pty_spec(),
        KillTarget::Session(sid) => forall|w: u64, p: u64| #[trigger] st.has_pane(sid@, w, p) ==> !st.pane_at(sid@, w, p).has_pty_spec(),
    }
}

proof fn lemma_panes_kept_trans(a: ServerState, b: ServerState, c: ServerState)
    requires
        panes_kept(a, b),
        panes_kept(b, c),
    ensures
        panes_kept(a, c),
{
    assert forall|s: u64, w: u64| #[trigger] a.has_window(s, w) implies c.has_window(s, w)
        && c.window_at(s, w).panes_map() == a.window_at(s, w).panes_map() by {
        assert(b.has_window(s, w));
    }
}

/// Signalling a pane, which leaves it as it was, keeps every window's panes.
proof fn lemma_kill_keeps(before: ServerState, after: ServerState, s: u64, w: u64, p: u64)
    requires
        before.has_pane(s, w, p),
        ServerState::only_pane_changed(before, after, s, w, p),
        ServerState::session_peers_kept(before, after, s),
        after.pane_at(s, w, p) == before.pane_at(s, w, p),
    ensures
        panes_kept(before, after),
{
    assert forall|s2: u64, w2: u64| #[trigger] before.has_window(s2, w2) implies after.has_window(s2, w2)
        && after.window_at(s2, w2).panes_map() == before.window_at(s2, w2).panes_map() by {
        if s2 != s {
            assert(after.sessions_map()[s2] == before.sessions_map()[s2]);
        } else if w2 != w {
            assert(before.sessions_map()[s].windows_map().contains_key(w2));
            assert(after.sessions_map()[s].windows_map()[w2] == before.sessions_map()[s].windows_map()[w2]);
        } else {
            assert(after.window_at(s, w).panes_map() =~= before.window_at(s, w).panes_map());
        }
    }
}

/// Changing one pane leaves every other pane where and as it was.
proof fn lemma_other_pane_kept(
    before: ServerState,
    after: ServerState,
    s: u64,
    w: u64,
    p: u64,
    s2: u64,
    w2: u64,
    p2: u64,
)
    requires
        before.has_pane(s, w, p),
        (before.has_pane(s2, w2, p2) && ServerState::only_pane_changed(before, after, s2, w2, p2)
            && ServerState::session_peers_kept(before, after, s2)) || ServerState::same_state(after, before),
        s != s2 || w != w2 || p != p2,
    ensures
        after.has_pane(s, w, p),
        after.pane_at(s, w, p) == before.pane_at(s, w, p),
        after.sessions_map()[s].peers_set() == before.sessions_map()[s].peers_set(),
        after.sessions_map().dom() == before.sessions_map().dom(),
{
    if !ServerState::same_state(after, before) {
        assert(before.sessions_map().contains_key(s));
        if s != s2 {
            assert(after.sessions_map()[s] == before.sessions_map()[s]);
        } else {
            assert(before.sessions_map()[s].windows_map().contains_key(w));
            if w != w2 {
                assert(after.sessions_map()[s].windows_map()[w] == before.sessions_map()[s].windows_map()[w]);
            } else {
                assert(before.window_at(s, w).panes_map().contains_key(p));
            }
        }
    }
}

} // verus!
