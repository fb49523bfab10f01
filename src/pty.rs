use vstd::prelude::*;

verus! {

/// One chunk of PTY output, shared by every subscriber that receives it.
pub type ByteChunk = std::sync::Arc<[u8]>;

/// Sending end of an output tap.
pub type OutputTx = tokio::sync::mpsc::Sender<ByteChunk>;

/// Receiving end of an output tap.
pub type OutputRx = tokio::sync::mpsc::Receiver<ByteChunk>;

/// Bound of each output tap, in chunks.
pub const TAP_CAPACITY: usize = 512;

/// Bound of the input pipeline, in buffers.
pub const INPUT_CAPACITY: usize = 256;

/// Largest read from the master in one go.
pub const READ_CHUNK: usize = 16384;

/// Terminal type exported to the child when none is configured.
pub const DEFAULT_TERM: &'static str = "xterm-256color";

/// Program run for `Program::Shell` when `SHELL` is not set.
pub const FALLBACK_SHELL: &'static str = "/bin/sh";

#[verifier::external_type_specification]
#[verifier::external_body]
#[verifier::reject_recursive_types(T)]
pub struct ExMpscSender<T>(tokio::sync::mpsc::Sender<T>);

#[verifier::external_type_specification]
#[verifier::external_body]
#[verifier::reject_recursive_types(T)]
pub struct ExMpscReceiver<T>(tokio::sync::mpsc::Receiver<T>);

#[verifier::external_type_specification]
#[verifier::external_body]
#[verifier::reject_recursive_types(T)]
pub struct ExWatchReceiver<T>(tokio::sync::watch::Receiver<T>);

#[verifier::external_type_specification]
#[verifier::external_body]
#[verifier::reject_recursive_types(T)]
pub struct ExMutex<T: ?Sized>(std::sync::Mutex<T>);

/// A signal that can be delivered to the child of a PTY.
#[derive(Clone, Copy, PartialEq, Eq, Structural, Debug)]
pub enum Sig {
    Term,
    Kill,
    Int,
    Hup,
}

/// Failures of the PTY engine.
#[derive(Debug)]
pub enum PtyError {
    InvalidArgs(String),
    OpenFailed,
    SpawnFailed,
    Io(std::io::Error),
    ResizeFailed,
    WaitFailed,
    Unsupported,
}

/// How a child ended: its exit code and, when a signal ended it, the signal's name.
#[derive(Clone, PartialEq, Eq, Debug)]
pub struct ExitStatus {
    pub code: u32,
    pub signal: Option<String>,
}

/// Terminal size and environment of a child to spawn.
#[derive(Clone, Debug)]
pub struct PtyConfig {
    pub cols: u16,
    pub rows: u16,
    pub cwd: Option<String>,
    pub env: Vec<(String, String)>,
    pub term: Option<String>,
}

/// What to run under a PTY.
#[derive(Clone, Debug)]
pub enum Program {
    /// The user's login shell, from `SHELL`, else `/bin/sh`.
    Shell,
    /// An argument vector; the first entry names the program.
    Argv { argv: Vec<String> },
}

/// The command line and environment that a spawn hands to the operating system.
#[derive(Clone, Debug)]
pub struct CommandPlan {
    pub program: String,
    pub args: Vec<String>,
    pub env: Vec<(String, String)>,
    pub cwd: Option<String>,
}

/// The program that `Program::Shell` runs, given the value of `SHELL`.
pub open spec fn shell_program(shell: Option<String>) -> Seq<char> {
    match shell {
        Some(s) => s@,
        None => FALLBACK_SHELL@,
    }
}

/// The value of `TERM` exported to the child.
pub open spec fn term_value(cfg: PtyConfig) -> Seq<char> {
    match cfg.term {
        Some(t) => t@,
        None => DEFAULT_TERM@,
    }
}

pub open spec fn pair_view(p: (String, String)) -> (Seq<char>, Seq<char>) {
    (p.0@, p.1@)
}

pub open spec fn env_view(v: Seq<(String, String)>) -> Seq<(Seq<char>, Seq<char>)> {
    v.map_values(|p: (String, String)| pair_view(p))
}

pub open spec fn strings_view(v: Seq<String>) -> Seq<Seq<char>> {
    v.map_values(|s: String| s@)
}

/// The environment of the child: `TERM` first, then the configured pairs in order,
/// so that a configured `TERM` wins.
pub open spec fn planned_env(cfg: PtyConfig) -> Seq<(Seq<char>, Seq<char>)> {
    seq![("TERM"@, term_value(cfg))] + env_view(cfg.env@)
}

/// Turns a program selector and a configuration into the command to spawn.
/// `shell` is the value of the `SHELL` variable, read by the caller.
pub fn plan_command(program: Program, cfg: &PtyConfig, shell: Option<String>) -> (r: Result<
    CommandPlan,
    PtyError,
>)
    ensures
        r is Err <==> (program matches Program::Argv { argv } && argv@.len() == 0),
        r matches Err(e) ==> e is InvalidArgs,
        r matches Ok(plan) ==> {
            &&& env_view(plan.env@) == planned_env(*cfg)
            &&& plan.cwd == cfg.cwd
            &&& match program {
                Program::Shell => plan.program@ == shell_program(shell) && plan.args@.len() == 0,
                Program::Argv { argv } => {
                    &&& plan.program@ == argv@[0]@
                    &&& strings_view(plan.args@) == strings_view(argv@.drop_first())
                },
            }
        },
{
    let (prog, args) = match program {
        Program::Shell => {
            let p = match shell {
                Some(s) => s,
                None => FALLBACK_SHELL.to_owned(),
            };
            (p, Vec::new())
        },
        Program::Argv { argv } => {
            if argv.len() == 0 {
                return Err(PtyError::InvalidArgs("empty argv".to_owned()));
            }
            let mut rest = argv;
            let first = rest.remove(0);
            (first, rest)
        },
    };
    let term = match &cfg.term {
        Some(t) => t.clone(),
        None => DEFAULT_TERM.to_owned(),
    };
    let mut env: Vec<(String, String)> = Vec::new();
    env.push(("TERM".to_owned(), term));
    let mut i: usize = 0;
    while i < cfg.env.len()
        invariant
            i <= cfg.env@.len(),
            env_view(env@) == seq![("TERM"@, term_value(*cfg))] + env_view(cfg.env@.subrange(0, i as int)),
        decreases cfg.env@.len() - i,
    {
        let (k, v) = &cfg.env[i];
        let ghost before = env@;
        env.push((k.clone(), v.clone()));
        assert(env_view(env@) =~= env_view(before).push(pair_view(cfg.env@[i as int])));
        assert(cfg.env@.subrange(0, i + 1) =~= cfg.env@.subrange(0, i as int).push(cfg.env@[i as int]));
        assert(env_view(cfg.env@.subrange(0, i + 1)) =~= env_view(cfg.env@.subrange(0, i as int)).push(pair_view(cfg.env@[i as int])));
        i = i + 1;
    }
    assert(cfg.env@.subrange(0, i as int) =~= cfg.env@);
    Ok(CommandPlan { program: prog, args, env, cwd: cfg.cwd.clone() })
}

/// The side of a running PTY that only the operating system can serve: the
/// master's window size and the child's process.
pub trait PtyControl: Send + Sync {
    /// Sets the master's size; `false` when the system refused.
    fn resize(&self, cols: u16, rows: u16) -> bool;

    /// Sends the child the operating system's terminate (`force == false`) or
    /// kill (`force == true`) signal.
    fn terminate(&self, force: bool) -> Result<(), std::io::Error>;
}

/// What delivering a signal amounts to.
#[derive(Clone, Copy, PartialEq, Eq, Structural, Debug)]
pub enum SignalAction {
    /// Put this byte into the input pipeline.
    Inject(u8),
    /// Ask the system to end the child; `true` for a kill.
    Terminate(bool),
    /// Nothing to do.
    Nothing,
}

/// The byte that an interrupt injects (Ctrl-C).
pub const INTERRUPT_BYTE: u8 = 3;

/// `Int` injects Ctrl-C into the input, `Term` and `Kill` go to the system, and
/// `Hup` needs nothing: closing the PTY hangs the child up.
pub open spec fn signal_action_spec(sig: Sig) -> SignalAction {
    match sig {
        Sig::Int => SignalAction::Inject(INTERRUPT_BYTE),
        Sig::Term => SignalAction::Terminate(false),
        Sig::Kill => SignalAction::Terminate(true),
        Sig::Hup => SignalAction::Nothing,
    }
}

/// The signal that ends a child: a kill when `force`, else a terminate.
pub fn kill_signal(force: bool) -> (r: Sig)
    ensures
        r == (if force {
            Sig::Kill
        } else {
            Sig::Term
        }),
{
    if force {
        Sig::Kill
    } else {
        Sig::Term
    }
}

pub fn signal_action(sig: Sig) -> (r: SignalAction)
    ensures
        r == signal_action_spec(sig),
{
    match sig {
        Sig::Int => SignalAction::Inject(INTERRUPT_BYTE),
        Sig::Term => SignalAction::Terminate(false),
        Sig::Kill => SignalAction::Terminate(true),
        Sig::Hup => SignalAction::Nothing,
    }
}

/// Relies on tokio's mpsc::channel: a fresh bounded channel of the given capacity;
/// it panics on zero and above `usize::MAX >> 3`.
#[verifier::external_body]
fn output_channel(capacity: usize) -> (r: (OutputTx, OutputRx))
    requires
        0 < capacity <= usize::MAX / 8,
{
    tokio::sync::mpsc::channel(capacity)
}

/// Relies on std's Mutex::lock to add a sender to the subscriber list; a poisoned
/// lock leaves the list as it is.
#[verifier::external_body]
fn register_tap(taps: &std::sync::Mutex<Vec<OutputTx>>, tx: OutputTx) {
    if let Ok(mut list) = taps.lock() {
        list.push(tx);
    }
}

/// Relies on tokio's mpsc Sender::try_send: `true` when the item was queued,
/// `false` when the queue was full or its receiver gone. The outcome depends on
/// the channel's state, so nothing is promised of it.
#[verifier::external_body]
fn try_queue<T>(tx: &tokio::sync::mpsc::Sender<T>, item: T) -> (r: bool) {
    tx.try_send(item).is_ok()
}

/// What a look at a tap finds.
pub enum TapRead {
    /// The oldest queued chunk, now taken.
    Chunk(ByteChunk),
    /// Nothing queued.
    Empty,
    /// The source dropped this tap: it had fallen behind, or the PTY is gone.
    Closed,
}

/// Relies on tokio's mpsc Receiver::try_recv: the next queued chunk, `Empty` when
/// none is queued, `Closed` when every sender is gone.
#[verifier::external_body]
pub(crate) fn read_tap(rx: &mut OutputRx) -> (r: TapRead) {
    match rx.try_recv() {
        Ok(c) => TapRead::Chunk(c),
        Err(tokio::sync::mpsc::error::TryRecvError::Empty) => TapRead::Empty,
        Err(tokio::sync::mpsc::error::TryRecvError::Disconnected) => TapRead::Closed,
    }
}

/// Relies on std::io::Error::from with ErrorKind::BrokenPipe.
#[verifier::external_body]
fn broken_pipe() -> (r: std::io::Error) {
    std::io::Error::from(std::io::ErrorKind::BrokenPipe)
}

/// Relies on tokio's watch Receiver::borrow: the value last published, cloned.
#[verifier::external_body]
fn peek_watch(rx: &tokio::sync::watch::Receiver<Option<ExitStatus>>) -> (r: Option<ExitStatus>) {
    rx.borrow().clone()
}

/// Relies on Clone of tokio's watch Receiver: another receiver of the same watch.
#[verifier::external_body]
fn clone_watch(rx: &tokio::sync::watch::Receiver<Option<ExitStatus>>) -> (r:
    tokio::sync::watch::Receiver<Option<ExitStatus>>) {
    rx.clone()
}

/// Relies on Clone of tokio's mpsc Sender: another sender into the same channel.
#[verifier::external_body]
fn clone_input(tx: &tokio::sync::mpsc::Sender<Vec<u8>>) -> (r: tokio::sync::mpsc::Sender<Vec<u8>>) {
    tx.clone()
}

/// Handle to a child running under a PTY.
pub struct PtyHandle {
    input: tokio::sync::mpsc::Sender<Vec<u8>>,
    taps: std::sync::Arc<std::sync::Mutex<Vec<OutputTx>>>,
    exit: tokio::sync::watch::Receiver<Option<ExitStatus>>,
    control: Box<dyn PtyControl>,
}

impl PtyHandle {
    /// Assembles a handle from the parts of a spawned PTY: the input pipeline, the
    /// subscriber list that the reader fans out to, the exit watch and the control
    /// side.
    pub fn new(
        input: tokio::sync::mpsc::Sender<Vec<u8>>,
        taps: std::sync::Arc<std::sync::Mutex<Vec<OutputTx>>>,
        exit: tokio::sync::watch::Receiver<Option<ExitStatus>>,
        control: Box<dyn PtyControl>,
    ) -> (r: Self) {
        PtyHandle { input, taps, exit, control }
    }

    /// A sender into the input pipeline, for an asynchronous write.
    pub fn input(&self) -> tokio::sync::mpsc::Sender<Vec<u8>> {
        clone_input(&self.input)
    }

    /// Requests a resize of the master.
    pub fn resize(&self, cols: u16, rows: u16) -> (r: Result<(), PtyError>)
        ensures
            r matches Err(e) ==> e is ResizeFailed,
    {
        if self.control.resize(cols, rows) {
            Ok(())
        } else {
            Err(PtyError::ResizeFailed)
        }
    }

    /// Subscribes to the output: a fresh tap that receives every later chunk until
    /// it is dropped or falls behind.
    pub fn subscribe(&self) -> OutputRx {
        let (tx, rx) = output_channel(TAP_CAPACITY);
        register_tap(&self.taps, tx);
        rx
    }

    /// Delivers `sig` as `signal_action` says. `Hup` always succeeds; the other
    /// signals fail only where the pipeline or the system refused.
    pub fn signal(&self, sig: Sig) -> (r: Result<(), PtyError>)
        ensures
            sig is Hup ==> r is Ok,
            r matches Err(e) ==> e is Io,
    {
        match signal_action(sig) {
            SignalAction::Inject(b) => {
                if try_queue(&self.input, vec![b]) {
                    Ok(())
                } else {
                    Err(PtyError::Io(broken_pipe()))
                }
            },
            SignalAction::Terminate(force) => match self.control.terminate(force) {
                Ok(()) => Ok(()),
                Err(e) => Err(PtyError::Io(e)),
            },
            SignalAction::Nothing => Ok(()),
        }
    }

    /// Another receiver of the exit watch: `None` while the child runs, then its
    /// status.
    pub fn exit_watch(&self) -> tokio::sync::watch::Receiver<Option<ExitStatus>> {
        clone_watch(&self.exit)
    }

    /// The exit status published so far, if any.
    pub fn exit_status(&self) -> Option<ExitStatus> {
        peek_watch(&self.exit)
    }
}

/// The items of `s` whose flag in `flags` is `true`, in their order.
pub open spec fn kept<T>(s: Seq<T>, flags: Seq<bool>) -> Seq<T>
    decreases s.len(),
{
    if s.len() == 0 || flags.len() == 0 {
        Seq::empty()
    } else {
        let rest = kept(s.drop_last(), flags.drop_last());
        if flags.last() {
            rest.push(s.last())
        } else {
            rest
        }
    }
}

/// Offers one chunk to every subscriber in order, and drops each subscriber that
/// refused it (queue full or receiver gone), so that a slow consumer never stalls
/// the source. The result says, for each subscriber of before, whether it took
/// the chunk; exactly those remain, in their order.
pub fn fan_out(taps: &mut Vec<OutputTx>, chunk: &ByteChunk) -> (accepted: Vec<bool>)
    ensures
        accepted@.len() == old(taps)@.len(),
        final(taps)@ == kept(old(taps)@, accepted@),
{
    let ghost orig = taps@;
    let mut accepted: Vec<bool> = Vec::new();
    let mut i: usize = 0;
    while i < taps.len()
        invariant
            i <= taps@.len(),
            accepted@.len() <= orig.len(),
            taps@.subrange(0, i as int) == kept(orig.subrange(0, accepted@.len() as int), accepted@),
            taps@.subrange(i as int, taps@.len() as int) == orig.subrange(accepted@.len() as int, orig.len() as int),
        decreases taps@.len() - i,
    {
        let ghost n = accepted@.len() as int;
        let ghost before = taps@;
        let ghost acc0 = accepted@;
        let ghost len = before.len() as int;
        assert(before.subrange(i as int, len).len() == orig.subrange(n, orig.len() as int).len());
        assert(before[i as int] == orig[n]) by {
            assert(before.subrange(i as int, len)[0] == orig.subrange(n, orig.len() as int)[0]);
        }
        assert forall|k: int| i < k < len implies #[trigger] before[k] == orig[n + k - i] by {
            assert(before.subrange(i as int, len)[k - i] == orig.subrange(n, orig.len() as int)[k - i]);
        }
        let took = try_queue(&taps[i], chunk.clone());
        accepted.push(took);
        assert(orig.subrange(0, n + 1).drop_last() =~= orig.subrange(0, n));
        assert(accepted@.drop_last() =~= acc0);
        assert(orig.subrange(0, n + 1).last() == orig[n]);
        if took {
            i = i + 1;
            assert(taps@.subrange(0, i as int) =~= before.subrange(0, i - 1).push(before[i - 1]));
        } else {
            taps.remove(i);
            assert(taps@.subrange(0, i as int) =~= before.subrange(0, i as int));
        }
        assert(taps@.subrange(i as int, taps@.len() as int) =~= orig.subrange(n + 1, orig.len() as int));
    }
    assert(orig.subrange(accepted@.len() as int, orig.len() as int).len() == 0);
    assert(taps@.subrange(0, i as int) =~= taps@);
    assert(orig.subrange(0, accepted@.len() as int) =~= orig);
    accepted
}

/// Number of `true` flags before position `p`.
pub open spec fn count_true(f: Seq<bool>, p: int) -> nat
    decreases p,
{
    if p <= 0 {
        0
    } else {
        count_true(f, p - 1) + if f[p - 1] {
            1nat
        } else {
            0nat
        }
    }
}

proof fn lemma_count_true_prefix(f: Seq<bool>, g: Seq<bool>, p: int)
    requires
        0 <= p <= f.len(),
        p <= g.len(),
        forall|j: int| 0 <= j < p ==> f[j] == g[j],
    ensures
        count_true(f, p) == count_true(g, p),
    decreases p,
{
    if p > 0 {
        lemma_count_true_prefix(f, g, p - 1);
    }
}

/// The survivors of a fan-out are counted by the flags, and the subscriber at
/// position `p` that took the chunk sits, after it, behind the takers before it.
proof fn lemma_kept_index<T>(s: Seq<T>, f: Seq<bool>, p: int)
    requires
        s.len() == f.len(),
    ensures
        kept(s, f).len() == count_true(f, s.len() as int),
        0 <= p < s.len() && f[p] ==> count_true(f, p) < kept(s, f).len() && kept(s, f)[count_true(f, p) as int]
            == s[p],
    decreases s.len(),
{
    if s.len() > 0 {
        let n = s.len() - 1;
        let s1 = s.drop_last();
        let f1 = f.drop_last();
        lemma_count_true_prefix(f, f1, n);
        if 0 <= p < n {
            lemma_kept_index(s1, f1, p);
            lemma_count_true_prefix(f, f1, p);
        } else {
            lemma_kept_index(s1, f1, 0);
        }
    }
}

/// Where subscriber `i` of the first list stands after `k` fan-outs with the
/// given acceptance flags, or `None` once it has been dropped.
pub open spec fn position(flags: Seq<Seq<bool>>, i: int, k: int) -> Option<int>
    decreases k,
{
    if k <= 0 {
        Some(i)
    } else {
        match position(flags, i, k - 1) {
            None => None,
            Some(p) => if 0 <= p < flags[k - 1].len() && flags[k - 1][p] {
                Some(count_true(flags[k - 1], p) as int)
            } else {
                None
            },
        }
    }
}

/// Over successive fan-outs, each subscriber receives a prefix of the chunk
/// sequence, in source order and without gaps: while it is still listed after
/// `k` chunks it is the same sender and took every one of them, and once dropped
/// it never comes back. Other subscribers are unaffected by its drop.
pub proof fn lemma_fan_out_prefix(taps: Seq<Seq<OutputTx>>, flags: Seq<Seq<bool>>, i: int, k: int)
    requires
        taps.len() == flags.len() + 1,
        forall|m: int| 0 <= m < flags.len() ==> (#[trigger] flags[m]).len() == taps[m].len()
            && taps[m + 1] == kept(taps[m], flags[m]),
        0 <= i < taps[0].len(),
        0 <= k <= flags.len(),
    ensures
        position(flags, i, k) matches Some(p) ==> {
            &&& 0 <= p < taps[k].len()
            &&& taps[k][p] == taps[0][i]
            &&& forall|m: int| 0 <= m < k ==> ((#[trigger] position(flags, i, m)) matches Some(q)
                && flags[m][q])
        },
        position(flags, i, k) is None ==> forall|m: int| k <= m <= flags.len() ==> (#[trigger] position(
            flags,
            i,
            m,
        )) is None,
    decreases k,
{
    if k > 0 {
        lemma_fan_out_prefix(taps, flags, i, k - 1);
        let m = k - 1;
        assert(flags[m].len() == taps[m].len() && taps[m + 1] == kept(taps[m], flags[m]));
        match position(flags, i, m) {
            None => {},
            Some(p) => {
                lemma_kept_index(taps[m], flags[m], p);
            },
        }
    }
    if position(flags, i, k) is None {
        assert forall|m: int| k <= m <= flags.len() implies (#[trigger] position(flags, i, m)) is None by {
            lemma_position_stays_none(flags, i, k, m);
        }
    }
}

proof fn lemma_position_stays_none(flags: Seq<Seq<bool>>, i: int, k: int, m: int)
    requires
        0 <= k <= m,
        position(flags, i, k) is None,
    ensures
        position(flags, i, m) is None,
    decreases m - k,
{
    if m > k {
        lemma_position_stays_none(flags, i, k, m - 1);
    }
}

} // verus!
