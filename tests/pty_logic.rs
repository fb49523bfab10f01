use splicer::pty::{
    fan_out, plan_command, signal_action, ByteChunk, OutputTx, Program, PtyConfig, PtyError, Sig, SignalAction,
    TAP_CAPACITY,
};
use std::sync::Arc;

fn cfg(term: Option<&str>, env: Vec<(&str, &str)>) -> PtyConfig {
    PtyConfig {
        cols: 80,
        rows: 24,
        cwd: Some("/tmp".to_string()),
        env: env.into_iter().map(|(k, v)| (k.to_string(), v.to_string())).collect(),
        term: term.map(|t| t.to_string()),
    }
}

#[test]
fn shell_falls_back_to_bin_sh() {
    let plan = plan_command(Program::Shell, &cfg(None, vec![]), None).unwrap();
    assert_eq!(plan.program, "/bin/sh");
    assert!(plan.args.is_empty());
    assert_eq!(plan.env, vec![("TERM".to_string(), "xterm-256color".to_string())]);
    assert_eq!(plan.cwd, Some("/tmp".to_string()));
    let plan = plan_command(Program::Shell, &cfg(None, vec![]), Some("/bin/zsh".to_string())).unwrap();
    assert_eq!(plan.program, "/bin/zsh");
}

#[test]
fn argv_splits_program_and_arguments() {
    let argv = vec!["/bin/sh".to_string(), "-lc".to_string(), "printf hi".to_string()];
    let plan = plan_command(Program::Argv { argv }, &cfg(Some("vt100"), vec![("A", "1")]), None).unwrap();
    assert_eq!(plan.program, "/bin/sh");
    assert_eq!(plan.args, vec!["-lc".to_string(), "printf hi".to_string()]);
    assert_eq!(
        plan.env,
        vec![("TERM".to_string(), "vt100".to_string()), ("A".to_string(), "1".to_string())]
    );
}

#[test]
fn empty_argv_is_invalid() {
    let r = plan_command(Program::Argv { argv: vec![] }, &cfg(None, vec![]), None);
    assert!(matches!(r, Err(PtyError::InvalidArgs(_))));
}

#[test]
fn signals_map_to_actions() {
    assert_eq!(signal_action(Sig::Int), SignalAction::Inject(0x03));
    assert_eq!(signal_action(Sig::Term), SignalAction::Terminate(false));
    assert_eq!(signal_action(Sig::Kill), SignalAction::Terminate(true));
    assert_eq!(signal_action(Sig::Hup), SignalAction::Nothing);
}

#[test]
fn slow_subscriber_is_dropped_and_others_keep_order() {
    let (fast_tx, mut fast_rx) = tokio::sync::mpsc::channel::<ByteChunk>(TAP_CAPACITY);
    let (slow_tx, mut slow_rx) = tokio::sync::mpsc::channel::<ByteChunk>(1);
    let (last_tx, mut last_rx) = tokio::sync::mpsc::channel::<ByteChunk>(TAP_CAPACITY);
    let mut taps: Vec<OutputTx> = vec![fast_tx, slow_tx, last_tx];

    let first: ByteChunk = Arc::from(&b"one"[..]);
    assert_eq!(fan_out(&mut taps, &first), vec![true, true, true]);
    assert_eq!(taps.len(), 3);

    // The slow queue is full now: the next chunk drops it.
    let second: ByteChunk = Arc::from(&b"two"[..]);
    assert_eq!(fan_out(&mut taps, &second), vec![true, false, true]);
    assert_eq!(taps.len(), 2);

    let third: ByteChunk = Arc::from(&b"three"[..]);
    assert_eq!(fan_out(&mut taps, &third), vec![true, true]);

    for rx in [&mut fast_rx, &mut last_rx] {
        assert_eq!(&*rx.try_recv().unwrap(), b"one");
        assert_eq!(&*rx.try_recv().unwrap(), b"two");
        assert_eq!(&*rx.try_recv().unwrap(), b"three");
        assert!(rx.try_recv().is_err());
    }
    // The dropped subscriber saw a prefix, then the end of its stream.
    assert_eq!(&*slow_rx.try_recv().unwrap(), b"one");
    assert!(matches!(slow_rx.try_recv(), Err(tokio::sync::mpsc::error::TryRecvError::Disconnected)));
}

#[test]
fn closed_receiver_is_dropped() {
    let (tx, rx) = tokio::sync::mpsc::channel::<ByteChunk>(4);
    drop(rx);
    let mut taps = vec![tx];
    let chunk: ByteChunk = Arc::from(&b"x"[..]);
    assert_eq!(fan_out(&mut taps, &chunk), vec![false]);
    assert!(taps.is_empty());
}
