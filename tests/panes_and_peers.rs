use splicer::common::idgen::{PaneId, PeerId, WindowId};
use splicer::pty::{ExitStatus, OutputTx, PtyControl, PtyHandle, Sig, TapRead};
use splicer::server::pane::{Pane, PaneState, TermSize};
use splicer::server::state::ServerState;
use splicer::server::window::Window;
use splicer::Error;
use std::sync::{Arc, Mutex};
use tokio::sync::{mpsc, watch};

struct FakeControl;

impl PtyControl for FakeControl {
    fn resize(&self, _cols: u16, _rows: u16) -> bool {
        true
    }
    fn terminate(&self, _force: bool) -> Result<(), std::io::Error> {
        Ok(())
    }
}

struct Fake {
    input: mpsc::Receiver<Vec<u8>>,
    taps: Arc<Mutex<Vec<OutputTx>>>,
    exit: watch::Sender<Option<ExitStatus>>,
}

fn fake_handle() -> (PtyHandle, Fake) {
    let (in_tx, in_rx) = mpsc::channel(256);
    let taps = Arc::new(Mutex::new(Vec::new()));
    let (exit_tx, exit_rx) = watch::channel(None);
    let h = PtyHandle::new(in_tx, taps.clone(), exit_rx, Box::new(FakeControl));
    (h, Fake { input: in_rx, taps, exit: exit_tx })
}

fn peer(n: u64) -> PeerId {
    PeerId::new(n).unwrap()
}

#[test]
fn input_owner_passes_on_detach() {
    let mut p = Pane::new(PaneId::new(1).unwrap(), "p", TermSize::new(80, 24));
    let (h, _fake) = fake_handle();
    p.spawn(h).unwrap();
    let (a, b) = (peer(1), peer(2));
    p.attach_peer(a).unwrap();
    p.attach_peer(b).unwrap();
    assert_eq!(p.input_owner(), Some(a));
    assert!(matches!(p.write_from(b), Err(Error::InvalidState(_))));
    assert!(p.write_from(a).is_ok());
    p.detach_peer(a);
    assert_eq!(p.input_owner(), Some(b));
    assert!(p.write_from(b).is_ok());
    assert!(!p.has_tap(a));
    assert!(p.has_tap(b));
}

#[test]
fn taps_follow_attachment_and_pty() {
    let mut p = Pane::new(PaneId::new(3).unwrap(), "p", TermSize::new(80, 24));
    p.attach_peer(peer(5)).unwrap();
    assert!(!p.has_tap(peer(5)));
    assert_eq!(p.input_owner(), Some(peer(5)));
    let (h, fake) = fake_handle();
    p.spawn(h).unwrap();
    assert!(p.has_tap(peer(5)));
    assert_eq!(fake.taps.lock().unwrap().len(), 1);
    p.attach_peer(peer(6)).unwrap();
    assert!(p.has_tap(peer(6)));
    let (h2, _f2) = fake_handle();
    assert!(matches!(p.spawn(h2), Err(Error::InvalidState(_))));
}

#[test]
fn set_input_owner_needs_an_attached_peer() {
    let mut p = Pane::new(PaneId::new(1).unwrap(), "p", TermSize::new(80, 24));
    assert!(matches!(p.set_input_owner(Some(peer(9))), Err(Error::InvalidState(_))));
    p.attach_peer(peer(9)).unwrap();
    p.set_input_owner(None).unwrap();
    assert_eq!(p.input_owner(), None);
    p.set_input_owner(Some(peer(9))).unwrap();
    assert_eq!(p.input_owner(), Some(peer(9)));
    // Without a PTY even the owner cannot write.
    assert!(matches!(p.write_from(peer(9)), Err(Error::InvalidState(_))));
}

#[test]
fn exit_is_latched_once() {
    let mut p = Pane::new(PaneId::new(1).unwrap(), "p", TermSize::new(80, 24));
    p.poll_exit();
    assert!(matches!(p.state(), PaneState::Empty));
    let (h, fake) = fake_handle();
    p.spawn(h).unwrap();
    p.poll_exit();
    assert!(p.is_running());
    fake.exit.send(Some(ExitStatus { code: 7, signal: None })).unwrap();
    p.poll_exit();
    assert!(matches!(p.state(), PaneState::Exited(ExitStatus { code: 7, signal: None })));
    fake.exit.send(Some(ExitStatus { code: 9, signal: Some("TERM".into()) })).unwrap();
    p.poll_exit();
    assert!(matches!(p.state(), PaneState::Exited(ExitStatus { code: 7, .. })));
}

#[test]
fn interrupt_injects_ctrl_c_and_hangup_does_nothing() {
    let mut p = Pane::new(PaneId::new(1).unwrap(), "p", TermSize::new(80, 24));
    assert!(p.kill(true).is_ok());
    let (h, mut fake) = fake_handle();
    h.signal(Sig::Int).unwrap();
    h.signal(Sig::Hup).unwrap();
    assert_eq!(fake.input.try_recv().unwrap(), vec![0x03]);
    assert!(fake.input.try_recv().is_err());
    p.spawn(h).unwrap();
    assert!(p.kill(false).is_ok());
    p.resize(TermSize::new(100, 30)).unwrap();
    assert_eq!(p.size(), TermSize::new(100, 30));
}

#[test]
fn pane_and_window_focus_rules() {
    let mut w = Window::new(WindowId::new(1).unwrap(), "w");
    assert_eq!(w.focused(), None);
    w.add_pane(Pane::new(PaneId::new(4).unwrap(), "a", TermSize::new(80, 24))).unwrap();
    w.add_pane(Pane::new(PaneId::new(8).unwrap(), "b", TermSize::new(80, 24))).unwrap();
    assert!(matches!(
        w.add_pane(Pane::new(PaneId::new(4).unwrap(), "dup", TermSize::new(80, 24))),
        Err(Error::InvalidState(_))
    ));
    w.focus(PaneId::new(8).unwrap()).unwrap();
    assert!(matches!(w.focus(PaneId::new(5).unwrap()), Err(Error::InvalidState(_))));
    assert_eq!(w.focused(), Some(PaneId::new(8).unwrap()));
    w.remove_pane(PaneId::new(8).unwrap());
    assert_eq!(w.focused(), Some(PaneId::new(4).unwrap()));
    w.remove_pane(PaneId::new(4).unwrap());
    assert_eq!(w.focused(), None);
    assert!(w.remove_pane(PaneId::new(4).unwrap()).is_none());
}

#[test]
fn state_level_two_peers_share_a_pane() {
    let mut st = ServerState::new();
    let sid = st.new_session("s");
    let wid = st.new_window(sid, "w").unwrap();
    let pid = st.new_pane(sid, wid, "p", TermSize::new(80, 24)).unwrap();
    let a = st.new_peer("a");
    let b = st.new_peer("b");
    let (h, _fake) = fake_handle();
    st.spawn_pane_program(sid, wid, pid, h).unwrap();
    st.attach_peer_to_pane(sid, wid, pid, a).unwrap();
    st.attach_peer_to_pane(sid, wid, pid, b).unwrap();
    assert!(matches!(st.write_from(sid, wid, pid, b), Err(Error::InvalidState(_))));
    st.detach_peer_from_pane(sid, wid, pid, a).unwrap();
    assert!(st.write_from(sid, wid, pid, b).is_ok());
    assert!(st.session(sid).unwrap().has_peer(a));
    assert_eq!(st.locate_pane(pid), Some((sid, wid)));
    assert_eq!(st.locate_window(wid), Some(sid));
    assert!(matches!(st.attach_peer_to_pane(sid, wid, PaneId::new(99).unwrap(), a), Err(Error::InvalidState(_))));
}

#[test]
fn dropped_tap_is_reported_and_replaced() {
    let mut p = Pane::new(PaneId::new(1).unwrap(), "p", TermSize::new(80, 24));
    let (h, fake) = fake_handle();
    p.spawn(h).unwrap();
    p.attach_peer(peer(1)).unwrap();
    {
        let list = fake.taps.lock().unwrap();
        let chunk: splicer::pty::ByteChunk = Arc::from(&b"hi"[..]);
        list[0].try_send(chunk).unwrap();
    }
    let (chunks, dropped) = p.drain_tap(peer(1));
    assert_eq!(chunks.len(), 1);
    assert!(!dropped);
    fake.taps.lock().unwrap().clear();
    let (chunks, dropped) = p.drain_tap(peer(1));
    assert!(chunks.is_empty());
    assert!(dropped);
    assert!(p.has_tap(peer(1)));
    assert_eq!(fake.taps.lock().unwrap().len(), 1);
}

#[test]
fn latch_exit_takes_the_observed_status() {
    let mut p = Pane::new(PaneId::new(1).unwrap(), "p", TermSize::new(80, 24));
    p.latch_exit(Some(ExitStatus { code: 3, signal: None }));
    assert!(matches!(p.state(), PaneState::Empty));
    let (h, _fake) = fake_handle();
    p.spawn(h).unwrap();
    assert_eq!(p.observe_exit(), None);
    p.latch_exit(None);
    assert!(p.is_running());
    p.latch_exit(Some(ExitStatus { code: 7, signal: None }));
    assert!(matches!(p.state(), PaneState::Exited(ExitStatus { code: 7, signal: None })));
    p.latch_exit(Some(ExitStatus { code: 1, signal: None }));
    assert!(matches!(p.state(), PaneState::Exited(ExitStatus { code: 7, .. })));
}

#[test]
fn absorb_steps() {
    let mut out = Vec::new();
    let c: splicer::pty::ByteChunk = Arc::from(&b"x"[..]);
    assert_eq!(splicer::server::pane::absorb(&mut out, TapRead::Chunk(c)), (false, false));
    assert_eq!(out.len(), 1);
    assert_eq!(splicer::server::pane::absorb(&mut out, TapRead::Empty), (true, false));
    assert_eq!(splicer::server::pane::absorb(&mut out, TapRead::Closed), (true, true));
    assert_eq!(out.len(), 1);
}

#[test]
fn kill_signal_follows_force() {
    assert_eq!(splicer::pty::kill_signal(true), Sig::Kill);
    assert_eq!(splicer::pty::kill_signal(false), Sig::Term);
}
