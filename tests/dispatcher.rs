use splicer::common::idgen::{PaneId, PeerId, SessionId};
use splicer::ipc::proto::{DetachTarget, ErrorCode, Event, KillTarget, Request, Response, StateScope};
use splicer::pty::{ExitStatus, PtyControl, PtyError, PtyHandle};
use splicer::server::dispatch::{deliveries, Core, Drained, Outcome, DEFAULT_COLS, DEFAULT_ROWS};
use splicer::server::pane::PaneState;
use std::sync::{Arc, Mutex};
use tokio::sync::{mpsc, watch};

struct FakeControl;

impl PtyControl for FakeControl {
    fn resize(&self, _cols: u16, _rows: u16) -> bool {
        true
    }
    fn terminate(&self, _force: bool) -> Result<(), std::io::Error> {
        Ok(())
    }
}

fn fake_handle() -> (PtyHandle, watch::Sender<Option<ExitStatus>>, mpsc::Receiver<Vec<u8>>) {
    let (in_tx, in_rx) = mpsc::channel(256);
    let (exit_tx, exit_rx) = watch::channel(None);
    let h = PtyHandle::new(in_tx, Arc::new(Mutex::new(Vec::new())), exit_rx, Box::new(FakeControl));
    (h, exit_tx, in_rx)
}

fn reply(o: Outcome) -> Response {
    match o {
        Outcome::Reply(r) => r,
        other => panic!("expected a reply, got {other:?}"),
    }
}

fn code(r: &Response) -> Option<ErrorCode> {
    match r {
        Response::Failure { code, .. } => Some(*code),
        _ => None,
    }
}

#[test]
fn session_window_spawn_and_exit_code() {
    let mut core = Core::new();
    let me = core.register_peer("me").unwrap();
    let (o, ev) = core.handle(me, Request::CreateSession { name: Some("work".into()) });
    assert!(ev.is_empty());
    let s1 = match reply(o) {
        Response::SessionCreated { session } => session,
        other => panic!("{other:?}"),
    };
    let (o, _) = core.handle(me, Request::CreateWindow { session: s1, title: Some("main".into()) });
    let w1 = match reply(o) {
        Response::WindowCreated { window } => window,
        other => panic!("{other:?}"),
    };
    let argv: Vec<String> = vec!["/bin/sh".into(), "-lc".into(), "sleep 0.1; exit 7".into()];
    let (o, _) = core.handle(
        me,
        Request::SpawnPane { session: s1, window: Some(w1), title: None, cwd: None, argv: argv.clone() },
    );
    let order = match o {
        Outcome::Spawn(order) => order,
        other => panic!("{other:?}"),
    };
    assert_eq!(order.session, s1);
    assert_eq!(order.window, w1);
    assert_eq!((order.config.cols, order.config.rows), (DEFAULT_COLS, DEFAULT_ROWS));
    let (h, exit_tx, _input) = fake_handle();
    let resp = core.finish_spawn(&order, Ok(h));
    assert!(matches!(resp, Response::PaneSpawned { pane, .. } if pane == order.pane));
    exit_tx.send(Some(ExitStatus { code: 7, signal: None })).unwrap();
    core.poll_exits();
    let pane = core.state().pane_ref(s1, w1, order.pane).unwrap();
    assert!(matches!(pane.state(), PaneState::Exited(ExitStatus { code: 7, signal: None })));
    let (o, _) = core.handle(me, Request::GetState { scope: StateScope::Panes { window: Some(w1) } });
    assert!(matches!(o, Outcome::Snapshot(StateScope::Panes { .. })));
}

#[test]
fn list_sessions_in_id_order() {
    let mut core = Core::new();
    let me = core.register_peer("me").unwrap();
    core.handle(me, Request::CreateSession { name: Some("a".into()) });
    core.handle(me, Request::CreateSession { name: None });
    let (o, _) = core.handle(me, Request::ListSessions);
    match reply(o) {
        Response::Sessions { items } => {
            let ids: Vec<u64> = items.iter().map(|s| s.id.get()).collect();
            assert_eq!(ids, vec![1, 2]);
            assert_eq!(items[0].name.as_deref(), Some("a"));
            assert_eq!(items[1].name.as_deref(), Some(""));
        }
        other => panic!("{other:?}"),
    }
}

#[test]
fn spawn_errors() {
    let mut core = Core::new();
    let me = core.register_peer("me").unwrap();
    let missing = SessionId::new(9).unwrap();
    let (o, _) = core.handle(me, Request::SpawnPane { session: missing, window: None, title: None, cwd: None, argv: vec![] });
    assert_eq!(code(&reply(o)), Some(ErrorCode::InvalidArgs));
    let (o, _) = core.handle(
        me,
        Request::SpawnPane { session: missing, window: None, title: None, cwd: None, argv: vec!["sh".into()] },
    );
    assert_eq!(code(&reply(o)), Some(ErrorCode::NotFound));
    let (o, _) = core.handle(me, Request::CreateWindow { session: missing, title: None });
    assert_eq!(code(&reply(o)), Some(ErrorCode::NotFound));
    let (o, _) = core.handle(me, Request::CreateSession { name: None });
    let s = match reply(o) {
        Response::SessionCreated { session } => session,
        other => panic!("{other:?}"),
    };
    // A session without windows has no focused window to spawn into.
    let (o, _) =
        core.handle(me, Request::SpawnPane { session: s, window: None, title: None, cwd: None, argv: vec!["sh".into()] });
    assert_eq!(code(&reply(o)), Some(ErrorCode::NotFound));
    // A failed spawn is Internal.
    core.handle(me, Request::CreateWindow { session: s, title: None });
    let (o, _) =
        core.handle(me, Request::SpawnPane { session: s, window: None, title: None, cwd: None, argv: vec!["sh".into()] });
    let order = match o {
        Outcome::Spawn(order) => order,
        other => panic!("{other:?}"),
    };
    assert_eq!(code(&core.finish_spawn(&order, Err(PtyError::SpawnFailed))), Some(ErrorCode::Internal));
}

#[test]
fn attach_detach_and_events() {
    let mut core = Core::new();
    let a = core.register_peer("a").unwrap();
    let b = core.register_peer("b").unwrap();
    let (o, _) = core.handle(a, Request::CreateSession { name: Some("s".into()) });
    let s = match reply(o) {
        Response::SessionCreated { session } => session,
        other => panic!("{other:?}"),
    };
    let (o, _) = core.handle(a, Request::Attach { session: s, window: None, pane: None });
    assert_eq!(code(&reply(o)), Some(ErrorCode::NotFound));
    core.handle(a, Request::CreateWindow { session: s, title: None });
    let (o, _) =
        core.handle(a, Request::SpawnPane { session: s, window: None, title: None, cwd: None, argv: vec!["sh".into()] });
    let order = match o {
        Outcome::Spawn(order) => order,
        other => panic!("{other:?}"),
    };
    let (h, _exit, _input) = fake_handle();
    core.finish_spawn(&order, Ok(h));

    let (o, ev) = core.handle(a, Request::Attach { session: s, window: None, pane: None });
    assert!(matches!(reply(o), Response::Attached));
    assert!(ev.is_empty());
    let (o, ev) = core.handle(b, Request::Attach { session: s, window: None, pane: Some(order.pane) });
    assert!(matches!(reply(o), Response::Attached));
    assert_eq!(ev.len(), 1);
    assert_eq!(ev[0].0, a);
    assert!(matches!(ev[0].1, Event::PeerAttached { peer, pane, .. } if peer == b && pane == order.pane));

    // Only the input owner may write.
    let st = core.state();
    assert!(st.write_from(s, order.window, order.pane, b).is_err());
    assert!(st.write_from(s, order.window, order.pane, a).is_ok());

    let wrong = DetachTarget::Pane(PaneId::new(order.pane.get() + 1).unwrap());
    let (o, _) = core.handle(a, Request::Detach { target: Some(wrong) });
    assert_eq!(code(&reply(o)), Some(ErrorCode::NotAttached));
    let (o, ev) = core.handle(a, Request::Detach { target: None });
    assert!(matches!(reply(o), Response::Detached));
    assert_eq!(ev.len(), 1);
    assert_eq!(ev[0].0, b);
    assert!(matches!(ev[0].1, Event::PeerDetached { peer } if peer == a));
    assert!(core.state().write_from(s, order.window, order.pane, b).is_ok());
    let (o, _) = core.handle(a, Request::Detach { target: None });
    assert_eq!(code(&reply(o)), Some(ErrorCode::NotAttached));

    let ev = core.unregister_peer(b);
    assert!(ev.is_empty());
    assert!(core.attachment(b).is_none());
    assert!(core.state().peer(b).is_none());
}

#[test]
fn kill_targets() {
    let mut core = Core::new();
    let me = core.register_peer("me").unwrap();
    let (o, _) = core.handle(me, Request::Kill { target: KillTarget::Pane(PaneId::new(1).unwrap()), force: true });
    assert_eq!(code(&reply(o)), Some(ErrorCode::NotFound));
    let (o, _) = core.handle(me, Request::CreateSession { name: None });
    let s = match reply(o) {
        Response::SessionCreated { session } => session,
        other => panic!("{other:?}"),
    };
    core.handle(me, Request::CreateWindow { session: s, title: None });
    let (o, _) =
        core.handle(me, Request::SpawnPane { session: s, window: None, title: None, cwd: None, argv: vec!["sh".into()] });
    let order = match o {
        Outcome::Spawn(order) => order,
        other => panic!("{other:?}"),
    };
    let (h, exit, _input) = fake_handle();
    core.finish_spawn(&order, Ok(h));
    core.handle(me, Request::Attach { session: s, window: None, pane: None });
    let (o, _) = core.handle(me, Request::Kill { target: KillTarget::Pane(order.pane), force: false });
    assert!(matches!(reply(o), Response::Killed));
    // Killed panes stay until their child has exited, then go.
    assert!(core.poll_exits().is_empty());
    assert!(core.state().pane_ref(s, order.window, order.pane).is_some());
    exit.send(Some(ExitStatus { code: 143, signal: Some("Terminated".into()) })).unwrap();
    let ev = core.poll_exits();
    assert!(core.state().pane_ref(s, order.window, order.pane).is_none());
    assert_eq!(ev.len(), 1);
    assert_eq!(ev[0].0, me);
    assert!(matches!(ev[0].1, Event::LayoutChanged { window } if window == order.window));
    let (o, _) = core.handle(me, Request::Kill { target: KillTarget::Session(s), force: true });
    assert!(matches!(reply(o), Response::Killed));
    let _ = PeerId::new(1);
}

#[test]
fn new_pane_is_announced_to_the_session() {
    let mut core = Core::new();
    let a = core.register_peer("a").unwrap();
    let b = core.register_peer("b").unwrap();
    let (o, _) = core.handle(a, Request::CreateSession { name: None });
    let s = match reply(o) {
        Response::SessionCreated { session } => session,
        other => panic!("{other:?}"),
    };
    core.handle(a, Request::CreateWindow { session: s, title: None });
    let (o, ev) =
        core.handle(a, Request::SpawnPane { session: s, window: None, title: None, cwd: None, argv: vec!["sh".into()] });
    assert!(ev.is_empty());
    let first = match o {
        Outcome::Spawn(order) => order,
        other => panic!("{other:?}"),
    };
    let (h, _exit, _input) = fake_handle();
    core.finish_spawn(&first, Ok(h));
    core.handle(a, Request::Attach { session: s, window: None, pane: None });
    core.handle(b, Request::Attach { session: s, window: None, pane: None });
    let (o, ev) =
        core.handle(b, Request::SpawnPane { session: s, window: None, title: None, cwd: None, argv: vec!["sh".into()] });
    let second = match o {
        Outcome::Spawn(order) => order,
        other => panic!("{other:?}"),
    };
    assert_ne!(second.pane, first.pane);
    let mut to: Vec<PeerId> = ev.iter().map(|(p, _)| *p).collect();
    to.sort();
    assert_eq!(to, vec![a, b]);
    assert!(ev.iter().all(|(_, e)| matches!(e, Event::LayoutChanged { window } if *window == second.window)));
}

#[test]
fn deliveries_keep_order_and_owe_one_notice_per_drop() {
    let chunk = |b: &[u8]| -> splicer::pty::ByteChunk { Arc::from(b) };
    let (p1, p2) = (PeerId::new(1).unwrap(), PeerId::new(2).unwrap());
    let pane = PaneId::new(5).unwrap();
    let records = vec![
        Drained { peer: p1, pane, chunks: vec![chunk(b"a"), chunk(b"b")], dropped: true },
        Drained { peer: p2, pane, chunks: vec![chunk(b"c")], dropped: false },
    ];
    let (chunks, drops) = deliveries(records);
    let seen: Vec<(u64, Vec<u8>)> = chunks.iter().map(|(p, _, c)| (p.get(), c.to_vec())).collect();
    assert_eq!(seen, vec![(1, b"a".to_vec()), (1, b"b".to_vec()), (2, b"c".to_vec())]);
    assert_eq!(drops, vec![(p1, pane)]);
}

#[test]
fn pump_output_reports_each_attached_peer() {
    let mut core = Core::new();
    let a = core.register_peer("a").unwrap();
    let (o, _) = core.handle(a, Request::CreateSession { name: None });
    let s = match reply(o) {
        Response::SessionCreated { session } => session,
        other => panic!("{other:?}"),
    };
    core.handle(a, Request::CreateWindow { session: s, title: None });
    let (o, _) =
        core.handle(a, Request::SpawnPane { session: s, window: None, title: None, cwd: None, argv: vec!["sh".into()] });
    let order = match o {
        Outcome::Spawn(order) => order,
        other => panic!("{other:?}"),
    };
    let (h, _exit, _input) = fake_handle();
    core.finish_spawn(&order, Ok(h));
    core.handle(a, Request::Attach { session: s, window: None, pane: None });
    let records = core.pump_output();
    assert_eq!(records.len(), 1);
    assert_eq!(records[0].peer, a);
    assert_eq!(records[0].pane, order.pane);
    assert!(records[0].chunks.is_empty());
}
