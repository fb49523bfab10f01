use portable_pty::{ChildKiller, CommandBuilder, MasterPty, NativePtySystem, PtySize, PtySystem};
use splicer::pty::{
    fan_out, plan_command, ByteChunk, ExitStatus, OutputTx, Program, PtyConfig, PtyControl, PtyError, PtyHandle,
    INPUT_CAPACITY, READ_CHUNK,
};
use std::io::{Read, Write};
use std::sync::{Arc, Mutex};
use std::time::Duration;
use tokio::sync::{mpsc, watch};
use tokio::time::timeout;

struct Control {
    master: Mutex<Box<dyn MasterPty + Send>>,
    killer: Mutex<Box<dyn ChildKiller + Send + Sync>>,
}

impl PtyControl for Control {
    fn resize(&self, cols: u16, rows: u16) -> bool {
        let size = PtySize { rows, cols, pixel_width: 0, pixel_height: 0 };
        self.master.lock().map(|m| m.resize(size).is_ok()).unwrap_or(false)
    }
    fn terminate(&self, _force: bool) -> Result<(), std::io::Error> {
        self.killer.lock().unwrap().kill()
    }
}

// Spawns under a real PTY the way the server does: the library plans the
// command and fans the output out; portable-pty and the blocking pool do the
// rest. `Program::Shell` runs the fallback shell here.
fn spawn(program: Program, cfg: PtyConfig) -> Result<PtyHandle, PtyError> {
    let plan = plan_command(program, &cfg, None)?;
    let pair = NativePtySystem::default()
        .openpty(PtySize { rows: cfg.rows, cols: cfg.cols, pixel_width: 0, pixel_height: 0 })
        .map_err(|_| PtyError::OpenFailed)?;
    let mut cmd = CommandBuilder::new(&plan.program);
    for a in &plan.args {
        cmd.arg(a);
    }
    for (k, v) in &plan.env {
        cmd.env(k, v);
    }
    let mut child = pair.slave.spawn_command(cmd).map_err(|_| PtyError::SpawnFailed)?;
    drop(pair.slave);
    let master = pair.master;
    let mut reader = master.try_clone_reader().map_err(|_| PtyError::OpenFailed)?;
    let writer = Arc::new(Mutex::new(master.take_writer().map_err(|_| PtyError::OpenFailed)?));
    let killer = child.clone_killer();
    let (in_tx, mut in_rx) = mpsc::channel::<Vec<u8>>(INPUT_CAPACITY);
    tokio::spawn(async move {
        while let Some(buf) = in_rx.recv().await {
            let w = writer.clone();
            let ok = tokio::task::spawn_blocking(move || w.lock().unwrap().write_all(&buf)).await;
            if !matches!(ok, Ok(Ok(()))) {
                break;
            }
        }
    });
    let taps: Arc<Mutex<Vec<OutputTx>>> = Arc::new(Mutex::new(Vec::new()));
    let (exit_tx, exit_rx) = watch::channel::<Option<ExitStatus>>(None);
    let taps_thr = taps.clone();
    tokio::task::spawn_blocking(move || {
        let mut buf = vec![0u8; READ_CHUNK];
        loop {
            match reader.read(&mut buf) {
                Ok(0) => break,
                Ok(n) => {
                    let chunk: ByteChunk = Arc::from(&buf[..n]);
                    let _ = fan_out(&mut taps_thr.lock().unwrap(), &chunk);
                }
                Err(e) if e.kind() == std::io::ErrorKind::Interrupted => continue,
                Err(_) => break,
            }
        }
        let status =
            child.wait().ok().map(|s| ExitStatus { code: s.exit_code(), signal: s.signal().map(|n| n.to_string()) });
        let _ = exit_tx.send(status);
    });
    let control = Control { master: Mutex::new(master), killer: Mutex::new(killer) };
    Ok(PtyHandle::new(in_tx, taps, exit_rx, Box::new(control)))
}

async fn write(h: &PtyHandle, bytes: &[u8]) -> Result<usize, PtyError> {
    h.input()
        .send(bytes.to_vec())
        .await
        .map_err(|_| PtyError::Io(std::io::Error::from(std::io::ErrorKind::BrokenPipe)))?;
    Ok(bytes.len())
}

fn runtime() -> tokio::runtime::Runtime {
    tokio::runtime::Runtime::new().unwrap()
}

fn config() -> PtyConfig {
    PtyConfig { cols: 80, rows: 24, cwd: None, env: vec![], term: None }
}

#[test]
fn spawn_shell_and_echo() {
    runtime().block_on(async {
        let handle = spawn(Program::Shell, config()).expect("spawn shell");
        let mut rx = handle.subscribe();
        write(&handle, b"echo hi\n").await.unwrap();

        let mut buf = Vec::new();
        loop {
            let ch = timeout(Duration::from_secs(2), rx.recv())
                .await
                .expect("timed out waiting for shell output")
                .expect("pty output channel closed");
            buf.extend_from_slice(&ch);
            if String::from_utf8_lossy(&buf).contains("hi") {
                break;
            }
        }

        write(&handle, b"exit\n").await.unwrap();
        let mut w = handle.exit_watch();
        timeout(Duration::from_secs(2), async {
            while w.borrow().is_none() {
                w.changed().await.unwrap();
            }
        })
        .await
        .expect("shell did not exit");
    });
}

#[test]
fn spawn_argv_and_exit_status() {
    runtime().block_on(async {
        let argv = vec!["/usr/bin/env".into(), "printf".into(), "%s".into(), "OK".into()];
        let handle = spawn(Program::Argv { argv }, config()).expect("spawn argv");
        let mut rx = handle.subscribe();
        let mut out = Vec::new();
        while let Some(ch) = rx.recv().await {
            out.extend_from_slice(&ch);
            if out.len() >= 2 {
                break;
            }
        }
        assert_eq!(String::from_utf8_lossy(&out), "OK");

        let mut w = handle.exit_watch();
        timeout(Duration::from_secs(2), async {
            while w.borrow().is_none() {
                w.changed().await.unwrap();
            }
        })
        .await
        .expect("argv child did not exit");
    });
}

#[test]
fn run_noninteractive() {
    runtime().block_on(async {
        let argv = vec!["/bin/sh".into(), "-lc".into(), "printf hi".into()];
        let h = spawn(Program::Argv { argv }, config()).unwrap();
        let mut rx = h.subscribe();
        let mut out = Vec::new();
        while let Some(ch) = rx.recv().await {
            out.extend_from_slice(&ch);
            if out.ends_with(b"hi") {
                break;
            }
        }

        let mut w = h.exit_watch();
        while w.borrow().is_none() {
            w.changed().await.unwrap();
        }
        assert_eq!(h.exit_status(), Some(ExitStatus { code: 0, signal: None }));
    });
}
