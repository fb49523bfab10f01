use splicer::server::pane::{Pane, PaneId, TermSize};
use splicer::server::peer::PeerId;
use splicer::server::session::SessionId;
use splicer::server::state::ServerState;
use splicer::server::window::{Window, WindowId};
use splicer::server::IdAllocator;

#[test]
fn allocator_issues_increasing_ids_from_one() {
    let mut alloc = IdAllocator::default();
    let ids: Vec<u64> = (0..5).map(|_| alloc.allocate()).collect();
    assert_eq!(ids, vec![1, 2, 3, 4, 5]);
}

#[test]
fn new_session_window_pane() {
    let mut st = ServerState::new();
    let sid = st.new_session("work");
    let wid = st.new_window(sid, "main").unwrap();
    let pid = st.new_pane(sid, wid, "shell", TermSize::new(120, 34)).unwrap();
    assert_eq!(sid.get(), 1);
    assert_eq!(wid.get(), 1);
    assert_eq!(pid.get(), 1);
    let s = st.session(sid).unwrap();
    assert_eq!(s.name(), "work");
    assert_eq!(s.focused(), Some(wid));
    let w = s.window(wid).unwrap();
    assert_eq!(w.focused(), Some(pid));
    let p = w.pane(pid).unwrap();
    assert_eq!(p.title(), "shell");
    assert_eq!(p.size(), TermSize::new(120, 34));
}

#[test]
fn window_focus_moves_to_least_remaining_pane() {
    let mut w = Window::new(WindowId::new(1).unwrap(), "w");
    for raw in [5u64, 2, 9] {
        let id = PaneId::new(raw).unwrap();
        w.add_pane(Pane::new(id, "p", TermSize::new(80, 24))).unwrap();
    }
    assert_eq!(w.focused(), Some(PaneId::new(5).unwrap()));
    assert!(w.remove_pane(PaneId::new(5).unwrap()).is_some());
    assert_eq!(w.focused(), Some(PaneId::new(2).unwrap()));
    let ids: Vec<u64> = w.pane_ids().iter().map(|p| p.get()).collect();
    assert_eq!(ids, vec![2, 9]);
    let _ = (SessionId::new(1), PeerId::new(1));
}

#[test]
fn prebuilt_ids_move_the_allocators_on() {
    let mut st = ServerState::new();
    let sid = st.new_session("s");
    let mut w = Window::new(WindowId::new(5).unwrap(), "pre");
    w.add_pane(Pane::new(PaneId::new(9).unwrap(), "p", TermSize::new(80, 24))).unwrap();
    st.add_window(sid, w).unwrap();
    let wid = st.new_window(sid, "next").unwrap();
    assert_eq!(wid.get(), 6);
    let pid = st.new_pane(sid, wid, "q", TermSize::new(80, 24)).unwrap();
    assert_eq!(pid.get(), 10);
    let pid2 = st.new_pane(sid, WindowId::new(5).unwrap(), "r", TermSize::new(80, 24)).unwrap();
    assert_eq!(pid2.get(), 11);
    assert!(st.new_pane(sid, WindowId::new(77).unwrap(), "x", TermSize::new(80, 24)).is_err());
    assert!(st.new_window(SessionId::new(42).unwrap(), "x").is_err());
}

#[test]
fn pane_paths_cover_the_scope() {
    let mut st = ServerState::new();
    let sid = st.new_session("s");
    let w1 = st.new_window(sid, "a").unwrap();
    let w2 = st.new_window(sid, "b").unwrap();
    let p1 = st.new_pane(sid, w1, "x", TermSize::new(80, 24)).unwrap();
    let p2 = st.new_pane(sid, w2, "y", TermSize::new(80, 24)).unwrap();
    let p3 = st.new_pane(sid, w1, "z", TermSize::new(80, 24)).unwrap();
    assert_eq!(st.pane_paths(None), vec![(sid, w1, p1), (sid, w1, p3), (sid, w2, p2)]);
    assert_eq!(st.pane_paths(Some(w2)), vec![(sid, w2, p2)]);
    assert!(st.pane_paths(Some(WindowId::new(99).unwrap())).is_empty());
}
