use vstd::prelude::*;

use std::collections::{BTreeMap, BTreeSet};

use crate::common::error::{invalid_state, Error};
pub use crate::common::idgen::PaneId;
use crate::common::idgen::PeerId;
use crate::common::maps::{first_member, is_least, members_in_order, value_mut};
use crate::pty::{kill_signal, read_tap, ByteChunk, ExitStatus, OutputRx, PtyHandle, TapRead, TAP_CAPACITY};

verus! {

broadcast use {vstd::laws_cmp::group_laws_cmp, vstd::std_specs::btree::group_btree_axioms};

/// Terminal dimensions in character cells.
#[derive(Clone, Copy, PartialEq, Eq, Structural, Debug)]
pub struct TermSize {
    pub cols: u16,
    pub rows: u16,
}

impl TermSize {
    pub fn new(cols: u16, rows: u16) -> (r: Self)
        ensures
            r.cols == cols,
            r.rows == rows,
    {
        TermSize { cols, rows }
    }
}

/// Life cycle of a pane: no PTY yet, child running, child gone.
#[derive(Debug)]
pub enum PaneState {
    Empty,
    Running,
    Exited(ExitStatus),
}

/// Position of a state in the order `Empty`, `Running`, `Exited`.
pub open spec fn state_rank(s: PaneState) -> nat {
    match s {
        PaneState::Empty => 0,
        PaneState::Running => 1,
        PaneState::Exited(_) => 2,
    }
}

/// The state after observing `seen` on the exit watch: a running pane with
/// `Some(s)` becomes `Exited(s)`, anything else stays.
pub open spec fn latched(before: PaneState, seen: Option<ExitStatus>) -> PaneState {
    match (before, seen) {
        (PaneState::Running, Some(s)) => PaneState::Exited(s),
        _ => before,
    }
}

/// Takes in one look at a tap: a chunk is added to `out`; an empty tap stops
/// the drain; a closed tap stops it and reports the drop. The result is
/// `(stop, dropped)`.
pub fn absorb(out: &mut Vec<ByteChunk>, read: TapRead) -> (r: (bool, bool))
    ensures
        match read {
            TapRead::Chunk(c) => final(out)@ == old(out)@.push(c) && r == (false, false),
            TapRead::Empty => final(out)@ == old(out)@ && r == (true, false),
            TapRead::Closed => final(out)@ == old(out)@ && r == (true, true),
        },
{
    match read {
        TapRead::Chunk(c) => {
            out.push(c);
            (false, false)
        },
        TapRead::Empty => (true, false),
        TapRead::Closed => (true, true),
    }
}

/// One poll of the exit watch: only a running pane changes, and only to `Exited`.
pub open spec fn exit_poll_step(before: PaneState, after: PaneState) -> bool {
    &&& !(before is Running) ==> after == before
    &&& before is Running ==> after is Running || after is Exited
}

/// A terminal surface, backed by at most one PTY, shared by the peers attached to it.
pub struct Pane {
    id: PaneId,
    title: String,
    size: TermSize,
    pty: Option<PtyHandle>,
    taps: BTreeMap<u64, OutputRx>,
    attached: BTreeSet<u64>,
    input_owner: Option<u64>,
    state: PaneState,
}

impl Pane {
    pub closed spec fn id_spec(&self) -> PaneId {
        self.id
    }

    pub closed spec fn title_spec(&self) -> Seq<char> {
        self.title@
    }

    pub closed spec fn size_spec(&self) -> TermSize {
        self.size
    }

    pub closed spec fn has_pty_spec(&self) -> bool {
        self.pty is Some
    }

    /// Numbers of the attached peers.
    pub closed spec fn attached_set(&self) -> Set<u64> {
        self.attached@
    }

    /// Numbers of the peers that hold an output tap.
    pub closed spec fn tap_keys(&self) -> Set<u64> {
        self.taps@.dom()
    }

    /// Number of the peer whose input reaches the PTY.
    pub closed spec fn owner(&self) -> Option<u64> {
        self.input_owner
    }

    pub closed spec fn state_spec(&self) -> PaneState {
        self.state
    }

    /// The pane's invariant: the input owner is attached; a peer has a tap exactly
    /// when it is attached and the pane has a PTY; the state is `Empty` exactly
    /// when there is no PTY.
    pub open spec fn wf(&self) -> bool {
        &&& (self.owner() matches Some(p) ==> self.attached_set().contains(p))
        &&& self.tap_keys() == (if self.has_pty_spec() {
            self.attached_set()
        } else {
            Set::<u64>::empty()
        })
        &&& (self.state_spec() is Empty <==> !self.has_pty_spec())
        &&& !self.attached_set().contains(0)
    }

    /// Same identifier, title and size.
    pub open spec fn same_face(&self, other: &Pane) -> bool {
        &&& self.id_spec() == other.id_spec()
        &&& self.title_spec() == other.title_spec()
        &&& self.size_spec() == other.size_spec()
    }

    /// A pane in state `Empty`, with no peer attached.
    pub fn new(id: PaneId, title: &str, size: TermSize) -> (r: Self)
        ensures
            r.wf(),
            r.id_spec() == id,
            r.title_spec() == title@,
            r.size_spec() == size,
            !r.has_pty_spec(),
            r.state_spec() is Empty,
            r.attached_set() == Set::<u64>::empty(),
            r.owner() is None,
    {
        Pane {
            id,
            title: title.to_owned(),
            size,
            pty: None,
            taps: BTreeMap::new(),
            attached: BTreeSet::new(),
            input_owner: None,
            state: PaneState::Empty,
        }
    }

    pub fn id(&self) -> (r: PaneId)
        ensures
            r == self.id_spec(),
    {
        self.id
    }

    pub fn title(&self) -> (r: &str)
        ensures
            r@ == self.title_spec(),
    {
        self.title.as_str()
    }

    pub fn size(&self) -> (r: TermSize)
        ensures
            r == self.size_spec(),
    {
        self.size
    }

    pub fn has_pty(&self) -> (r: bool)
        ensures
            r == self.has_pty_spec(),
    {
        self.pty.is_some()
    }

    pub fn is_running(&self) -> (r: bool)
        ensures
            r == (self.state_spec() is Running),
    {
        match self.state {
            PaneState::Running => true,
            _ => false,
        }
    }

    /// Puts a freshly spawned PTY under this pane: every attached peer gets a tap,
    /// the least attached peer becomes input owner if there was none, and the pane
    /// is `Running`. A pane that already has a PTY refuses.
    pub fn spawn(&mut self, handle: PtyHandle) -> (r: Result<(), Error>)
        requires
            old(self).wf(),
        ensures
            final(self).wf(),
            r is Err <==> old(self).has_pty_spec(),
            r matches Err(e) ==> e is InvalidState && *final(self) == *old(self),
            r is Ok ==> {
                &&& final(self).same_face(old(self))
                &&& final(self).has_pty_spec()
                &&& final(self).state_spec() is Running
                &&& final(self).attached_set() == old(self).attached_set()
                &&& final(self).tap_keys() == old(self).attached_set()
                &&& (old(self).owner() is Some ==> final(self).owner() == old(self).owner())
                &&& (old(self).owner() is None ==> match final(self).owner() {
                    None => old(self).attached_set() == Set::<u64>::empty(),
                    Some(p) => is_least(p, old(self).attached_set()),
                })
            },
    {
        if self.pty.is_some() {
            return Err(invalid_state("pane already spawned"));
        }
        let peers = members_in_order(&self.attached);
        let mut i: usize = 0;
        assert(peers@.subrange(0, 0).to_set() =~= Set::<u64>::empty());
        while i < peers.len()
            invariant
                i <= peers@.len(),
                self.pty is None,
                self.attached@ == old(self).attached@,
                peers@.to_set() == self.attached@,
                self.taps@.dom() == peers@.subrange(0, i as int).to_set(),
                self.input_owner == old(self).input_owner,
                self.state == old(self).state,
                self.id == old(self).id,
                self.title == old(self).title,
                self.size == old(self).size,
            decreases peers@.len() - i,
        {
            let rx = handle.subscribe();
            self.taps.insert(peers[i], rx);
            assert(peers@.subrange(0, i + 1) =~= peers@.subrange(0, i as int).push(peers@[i as int]));
            proof {
                peers@.subrange(0, i as int).lemma_push_to_set_commute(peers@[i as int]);
            }
            i = i + 1;
        }
        assert(peers@.subrange(0, i as int) =~= peers@);
        self.pty = Some(handle);
        if self.input_owner.is_none() {
            self.input_owner = first_member(&self.attached);
        }
        self.state = PaneState::Running;
        Ok(())
    }

    /// Attaches a peer. With a PTY it gets a fresh tap; with no input owner yet it
    /// becomes the owner.
    pub fn attach_peer(&mut self, who: PeerId) -> (r: Result<(), Error>)
        requires
            old(self).wf(),
        ensures
            final(self).wf(),
            r is Ok,
            final(self).same_face(old(self)),
            final(self).has_pty_spec() == old(self).has_pty_spec(),
            final(self).state_spec() == old(self).state_spec(),
            final(self).attached_set() == old(self).attached_set().insert(who@),
            final(self).owner() == (if old(self).owner() is None {
                Some(who@)
            } else {
                old(self).owner()
            }),
    {
        let k = who.get();
        self.attached.insert(k);
        match &self.pty {
            Some(p) => {
                let rx = p.subscribe();
                self.taps.insert(k, rx);
            },
            None => {},
        }
        if self.input_owner.is_none() {
            self.input_owner = Some(k);
        }
        Ok(())
    }

    /// Detaches a peer and drops its tap. If it owned the input, ownership passes to
    /// the least remaining attached peer, or to nobody.
    pub fn detach_peer(&mut self, who: PeerId)
        requires
            old(self).wf(),
        ensures
            final(self).wf(),
            final(self).same_face(old(self)),
            final(self).has_pty_spec() == old(self).has_pty_spec(),
            final(self).state_spec() == old(self).state_spec(),
            final(self).attached_set() == old(self).attached_set().remove(who@),
            old(self).owner() != Some(who@) ==> final(self).owner() == old(self).owner(),
            old(self).owner() == Some(who@) ==> match final(self).owner() {
                None => final(self).attached_set() == Set::<u64>::empty(),
                Some(p) => is_least(p, final(self).attached_set()),
            },
    {
        let k = who.get();
        self.attached.remove(&k);
        self.taps.remove(&k);
        assert(self.taps@.dom() =~= (if self.pty is Some {
            self.attached@
        } else {
            Set::<u64>::empty()
        }));
        if self.input_owner == Some(k) {
            self.input_owner = first_member(&self.attached);
        }
    }

    /// Hands the input to `who`, which must be attached, or to nobody.
    pub fn set_input_owner(&mut self, who: Option<PeerId>) -> (r: Result<(), Error>)
        requires
            old(self).wf(),
        ensures
            final(self).wf(),
            r is Err <==> (who matches Some(p) && !old(self).attached_set().contains(p@)),
            r matches Err(e) ==> e is InvalidState && *final(self) == *old(self),
            r is Ok ==> {
                &&& final(self).owner() == (match who {
                    Some(p) => Some(p@),
                    None => None,
                })
                &&& final(self).same_face(old(self))
                &&& final(self).has_pty_spec() == old(self).has_pty_spec()
                &&& final(self).state_spec() == old(self).state_spec()
                &&& final(self).attached_set() == old(self).attached_set()
                &&& final(self).tap_keys() == old(self).tap_keys()
            },
    {
        match who {
            Some(p) => {
                let k = p.get();
                if !self.attached.contains(&k) {
                    return Err(invalid_state("peer not attached"));
                }
                self.input_owner = Some(k);
            },
            None => {
                self.input_owner = None;
            },
        }
        Ok(())
    }

    /// The PTY that input from `who` goes to: only the input owner may write, and
    /// only to a pane with a PTY.
    pub fn write_from(&self, who: PeerId) -> (r: Result<&PtyHandle, Error>)
        ensures
            r is Ok <==> (self.owner() == Some(who@) && self.has_pty_spec()),
            r matches Err(e) ==> e is InvalidState,
    {
        if self.input_owner != Some(who.get()) {
            return Err(invalid_state("peer has no input focus"));
        }
        match &self.pty {
            Some(p) => Ok(p),
            None => Err(invalid_state("pane has no PTY")),
        }
    }

    /// Records the new size and forwards it to the PTY, if any.
    pub fn resize(&mut self, size: TermSize) -> (r: Result<(), Error>)
        requires
            old(self).wf(),
        ensures
            final(self).wf(),
            final(self).size_spec() == size,
            final(self).id_spec() == old(self).id_spec(),
            final(self).title_spec() == old(self).title_spec(),
            final(self).has_pty_spec() == old(self).has_pty_spec(),
            final(self).state_spec() == old(self).state_spec(),
            final(self).attached_set() == old(self).attached_set(),
            final(self).tap_keys() == old(self).tap_keys(),
            final(self).owner() == old(self).owner(),
            !old(self).has_pty_spec() ==> r is Ok,
            r matches Err(e) ==> e is Pty,
    {
        self.size = size;
        match &self.pty {
            Some(p) => match p.resize(size.cols, size.rows) {
                Ok(()) => Ok(()),
                Err(e) => Err(Error::Pty(e)),
            },
            None => Ok(()),
        }
    }

    /// Asks the child to end with `kill_signal(force)`: a kill when `force`, else a
    /// terminate. A pane without a PTY has nothing to end. Only the system can
    /// refuse, which is an I/O error.
    pub fn kill(&mut self, force: bool) -> (r: Result<(), Error>)
        ensures
            *final(self) == *old(self),
            !old(self).has_pty_spec() ==> r is Ok,
            r matches Err(e) ==> (e matches Error::Pty(pe) && pe is Io),
    {
        match &self.pty {
            Some(p) => {
                let sig = kill_signal(force);
                match p.signal(sig) {
                    Ok(()) => Ok(()),
                    Err(e) => Err(Error::Pty(e)),
                }
            },
            None => Ok(()),
        }
    }

    /// The exit status published on the PTY's watch so far; none without a PTY.
    pub fn observe_exit(&self) -> (r: Option<ExitStatus>)
        ensures
            !self.has_pty_spec() ==> r is None,
    {
        match &self.pty {
            Some(p) => p.exit_status(),
            None => None,
        }
    }

    /// Takes note of an observed exit status: a running pane with `Some(s)` becomes
    /// `Exited(s)`; every other pane, and every other observation, leaves it as
    /// it is.
    pub fn latch_exit(&mut self, seen: Option<ExitStatus>)
        requires
            old(self).wf(),
        ensures
            final(self).wf(),
            final(self).same_face(old(self)),
            final(self).has_pty_spec() == old(self).has_pty_spec(),
            final(self).attached_set() == old(self).attached_set(),
            final(self).tap_keys() == old(self).tap_keys(),
            final(self).owner() == old(self).owner(),
            final(self).state_spec() == latched(old(self).state_spec(), seen),
    {
        if self.is_running() {
            match seen {
                Some(status) => {
                    self.state = PaneState::Exited(status);
                },
                None => {},
            }
        }
    }

    /// Looks at the exit watch without waiting and latches what it holds: a
    /// running pane whose child has exited becomes `Exited` with that status; an
    /// `Exited` pane keeps the status it latched first.
    pub fn poll_exit(&mut self)
        requires
            old(self).wf(),
        ensures
            final(self).wf(),
            final(self).same_face(old(self)),
            final(self).has_pty_spec() == old(self).has_pty_spec(),
            final(self).attached_set() == old(self).attached_set(),
            final(self).tap_keys() == old(self).tap_keys(),
            final(self).owner() == old(self).owner(),
            exit_poll_step(old(self).state_spec(), final(self).state_spec()),
    {
        let seen = self.observe_exit();
        self.latch_exit(seen);
    }

    /// Takes the output chunks queued on `who`'s tap, oldest first, at most a tap's
    /// capacity at a time, and says whether the source had dropped the tap for
    /// falling behind. A dropped tap is replaced by a fresh one, so the peer
    /// receives later output again; a peer without a tap gets nothing.
    pub fn drain_tap(&mut self, who: PeerId) -> (r: (Vec<ByteChunk>, bool))
        requires
            old(self).wf(),
        ensures
            final(self).wf(),
            final(self).same_face(old(self)),
            final(self).has_pty_spec() == old(self).has_pty_spec(),
            final(self).state_spec() == old(self).state_spec(),
            final(self).attached_set() == old(self).attached_set(),
            final(self).tap_keys() == old(self).tap_keys(),
            final(self).owner() == old(self).owner(),
            !old(self).tap_keys().contains(who@) ==> r.0@.len() == 0 && !r.1,
            r.0@.len() <= TAP_CAPACITY,
    {
        let mut out: Vec<ByteChunk> = Vec::new();
        let mut dropped = false;
        let k = who.get();
        match value_mut(&mut self.taps, k) {
            Some(rx) => {
                let mut n: usize = 0;
                while n < TAP_CAPACITY
                    invariant
                        n <= TAP_CAPACITY,
                        out@.len() == n,
                    decreases TAP_CAPACITY - n,
                {
                    let (stop, closed) = absorb(&mut out, read_tap(rx));
                    if stop {
                        dropped = closed;
                        break;
                    }
                    n = n + 1;
                }
            },
            None => {},
        }
        assert(self.taps@.dom() =~= old(self).taps@.dom());
        if dropped {
            match &self.pty {
                Some(h) => {
                    let fresh = h.subscribe();
                    self.taps.insert(k, fresh);
                    assert(self.taps@.dom() =~= old(self).taps@.dom());
                },
                None => {},
            }
        }
        (out, dropped)
    }

    /// The receiving end of `who`'s tap, if it has one. Taking chunks from it
    /// leaves the pane as it is otherwise.
    pub fn tap(&mut self, who: PeerId) -> (r: Option<&mut OutputRx>)
        ensures
            r is Some <==> old(self).tap_keys().contains(who@),
            final(self).same_face(old(self)),
            final(self).has_pty_spec() == old(self).has_pty_spec(),
            final(self).state_spec() == old(self).state_spec(),
            final(self).attached_set() == old(self).attached_set(),
            final(self).tap_keys() == old(self).tap_keys(),
            final(self).owner() == old(self).owner(),
    {
        value_mut(&mut self.taps, who.get())
    }

    pub fn state(&self) -> (r: &PaneState)
        ensures
            *r == self.state_spec(),
    {
        &self.state
    }

    /// The peer whose input reaches the PTY, if any.
    pub fn input_owner(&self) -> (r: Option<PeerId>)
        requires
            self.wf(),
        ensures
            r is Some <==> self.owner() is Some,
            r matches Some(p) ==> self.owner() == Some(p@),
    {
        match self.input_owner {
            Some(k) => PeerId::new(k),
            None => None,
        }
    }

    pub fn is_attached(&self, who: PeerId) -> (r: bool)
        ensures
            r == self.attached_set().contains(who@),
    {
        self.attached.contains(&who.get())
    }

    pub fn has_tap(&self, who: PeerId) -> (r: bool)
        ensures
            r == self.tap_keys().contains(who@),
    {
        self.taps.contains_key(&who.get())
    }
}

/// A pane's input owner, when present, is one of its attached peers.
pub proof fn lemma_input_owner_attached(p: Pane)
    requires
        p.wf(),
    ensures
        p.owner() matches Some(o) ==> p.attached_set().contains(o),
{
}

/// A pane holds a tap for a peer exactly when that peer is attached and the pane
/// has a PTY.
pub proof fn lemma_taps_match_attached(p: Pane, peer: u64)
    requires
        p.wf(),
    ensures
        p.tap_keys().contains(peer) <==> (p.attached_set().contains(peer) && p.has_pty_spec()),
{
}

/// Polling never moves a pane backwards through `Empty`, `Running`, `Exited`, and
/// once `Exited` the latched status stays.
pub proof fn lemma_poll_exit_monotone(before: Pane, after: Pane)
    requires
        exit_poll_step(before.state_spec(), after.state_spec()),
    ensures
        state_rank(before.state_spec()) <= state_rank(after.state_spec()),
        before.state_spec() is Exited ==> after.state_spec() == before.state_spec(),
{
}

} // verus!
