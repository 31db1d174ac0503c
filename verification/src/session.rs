//! Session process manager model: size validation for the pseudo-terminal,
//! the ledger of OS resources a spawn attempt holds (so that every exit path
//! releases exactly what was acquired, in reverse order), the handle set a
//! finished session owns with its teardown order, and the liveness policy
//! that decides when a session counts as exited.
//!
//! The OS calls themselves (pipes, pseudo-console, process creation) are
//! platform-bound and live with the host; the host reports each acquisition
//! into the ledger and obeys the close plans it hands back.

use vstd::prelude::*;

verus! {

/// How a session operation fails. Size errors are rejected before any OS
/// call; spawn and resize failures, and byte-transfer or probe failures
/// (`Io`), carry the OS detail for logging.
#[derive(Debug, PartialEq, Eq)]
pub enum PtyError {
    UnsupportedPlatform,
    InvalidSize { cols: u16, rows: u16 },
    SpawnFailure { detail: String },
    ResizeFailure { detail: String },
    Io { detail: String },
}

/// Terminal dimensions requested of the pseudo-terminal.
#[derive(Debug, Copy, Clone, PartialEq, Eq, Structural)]
pub struct PtySize {
    pub cols: u16,
    pub rows: u16,
}

impl PtySize {
    /// A size is usable if and only if both dimensions are nonzero.
    pub fn validate(self) -> (r: Result<(), PtyError>)
        ensures
            r is Ok <==> self.cols > 0 && self.rows > 0,
            r is Err ==> r->Err_0 == (PtyError::InvalidSize { cols: self.cols, rows: self.rows }),
    {
        if self.cols == 0 || self.rows == 0 {
            return Err(PtyError::InvalidSize { cols: self.cols, rows: self.rows });
        }
        Ok(())
    }
}

/// Milliseconds between liveness probes: polling any faster buys nothing and
/// storms the OS.
pub const LIVENESS_PROBE_INTERVAL_MS: u64 = 500;

/// Definitive "not running" probes in a row before a session counts as
/// exited; one alone may be the benign race right after spawn.
pub const EXIT_PROBES_REQUIRED: u8 = 2;

/// What one liveness probe of the child process reported.
#[derive(Debug, Copy, Clone, PartialEq, Eq, Structural)]
pub enum ProbeOutcome {
    Running,
    NotRunning,
    ProbeFailed,
}

/// The liveness policy of a session: a probe failure is treated
/// conservatively (reported, not fatal), and only two consecutive
/// definitive "not running" probes close the session.
pub struct LivenessMonitor {
    misses: u8,
    closed: bool,
}

impl LivenessMonitor {
    /// Consecutive definitive "not running" probes seen so far.
    pub closed spec fn misses(&self) -> u8 {
        self.misses
    }

    /// Whether the session has been declared exited.
    pub closed spec fn is_closed_spec(&self) -> bool {
        self.closed
    }

    pub fn new() -> (r: Self)
        ensures
            r.misses() == 0,
            !r.is_closed_spec(),
    {
        Self { misses: 0, closed: false }
    }

    /// Whether enough time has passed since the last probe for another one.
    pub fn probe_due(elapsed_ms: u64) -> (r: bool)
        ensures
            r == (elapsed_ms >= LIVENESS_PROBE_INTERVAL_MS),
    {
        elapsed_ms >= LIVENESS_PROBE_INTERVAL_MS
    }

    /// Records one probe outcome and reports whether the session now counts
    /// as exited: a running child resets the count, a probe failure changes
    /// nothing, and only the second consecutive "not running" closes.
    pub fn observe(&mut self, outcome: ProbeOutcome) -> (closed: bool)
        ensures
            closed == final(self).is_closed_spec(),
            outcome is Running ==> final(self).misses() == 0 && final(self).is_closed_spec()
                == old(self).is_closed_spec(),
            outcome is ProbeFailed ==> *final(self) == *old(self),
            outcome is NotRunning ==> final(self).misses() == (if old(self).misses()
                < EXIT_PROBES_REQUIRED {
                old(self).misses() + 1
            } else {
                old(self).misses() as int
            }),
            outcome is NotRunning ==> final(self).is_closed_spec() == (old(self).is_closed_spec()
                || final(self).misses() >= EXIT_PROBES_REQUIRED),
    {
        match outcome {
            ProbeOutcome::Running => {
                self.misses = 0;
            },
            ProbeOutcome::NotRunning => {
                if self.misses < EXIT_PROBES_REQUIRED {
                    self.misses = self.misses + 1;
                }
                if self.misses >= EXIT_PROBES_REQUIRED {
                    self.closed = true;
                }
            },
            ProbeOutcome::ProbeFailed => {},
        }
        self.closed
    }

    /// Marks the session exited outright (end of stream from the relay).
    pub fn mark_closed(&mut self)
        ensures
            final(self).is_closed_spec(),
            final(self).misses() == 0,
    {
        self.closed = true;
        self.misses = 0;
    }

    pub fn is_closed(&self) -> (r: bool)
        ensures
            r == self.is_closed_spec(),
    {
        self.closed
    }
}

/// The OS resources a spawn attempt currently holds, as raw handle values in
/// acquisition order. Each acquisition is recorded here, so that an abort
/// can name everything still held, and a success can transfer the whole set
/// into the finished session with nothing left behind.
pub struct SpawnLedger {
    held: Vec<u64>,
}

impl View for SpawnLedger {
    type V = Seq<u64>;

    closed spec fn view(&self) -> Seq<u64> {
        self.held@
    }
}

impl SpawnLedger {
    /// A fresh attempt holds nothing.
    pub fn begin() -> (r: Self)
        ensures
            r@ == Seq::<u64>::empty(),
    {
        Self { held: Vec::new() }
    }

    /// Records one acquired OS resource.
    pub fn acquire(&mut self, handle: u64)
        ensures
            final(self)@ == old(self)@.push(handle),
    {
        self.held.push(handle);
    }

    /// How many resources the attempt holds.
    pub fn held_count(&self) -> (r: usize)
        ensures
            r == self@.len(),
    {
        self.held.len()
    }

    /// The attempt failed: hands back every held handle, newest first (the
    /// reverse of acquisition order), and afterwards holds none of them.
    /// Nothing is dropped: a handle is in the plan exactly as often as it
    /// was acquired.
    pub fn abort(&mut self) -> (plan: Vec<u64>)
        ensures
            plan@ == old(self)@.reverse(),
            final(self)@.len() == 0,
            plan@.len() == old(self)@.len(),
            forall|h: u64| plan@.contains(h) <==> old(self)@.contains(h),
    {
        let ghost acquired = self.held@;
        let mut plan: Vec<u64> = Vec::new();
        let n = self.held.len();
        let mut i: usize = 0;
        while i < n
            invariant
                n == self.held@.len(),
                self.held@ == acquired,
                i <= n,
                plan@.len() == i,
                forall|j: int| 0 <= j < i ==> plan@[j] == acquired[n - 1 - j],
            decreases n - i,
        {
            let h = self.held[n - 1 - i];
            plan.push(h);
            i = i + 1;
        }
        self.held.clear();
        proof {
            assert(plan@ =~= acquired.reverse());
            assert forall|h: u64| plan@.contains(h) <==> acquired.contains(h) by {
                if plan@.contains(h) {
                    let j = choose|j: int| 0 <= j < plan@.len() && plan@[j] == h;
                    assert(acquired[acquired.len() - 1 - j] == h);
                }
                if acquired.contains(h) {
                    let j = choose|j: int| 0 <= j < acquired.len() && acquired[j] == h;
                    assert(plan@[acquired.len() - 1 - j] == h);
                }
            }
        }
        plan
    }

    /// The attempt succeeded: ownership of everything held passes to the
    /// finished session, and the attempt itself keeps nothing to release.
    pub fn transfer_all(&mut self) -> (transferred: Vec<u64>)
        ensures
            transferred@ == old(self)@,
            final(self)@.len() == 0,
    {
        let mut transferred: Vec<u64> = Vec::new();
        core::mem::swap(&mut transferred, &mut self.held);
        transferred
    }
}

/// The OS handles one live session exclusively owns once spawn finished:
/// the pseudo-console, the two pipe ends the child inherited, and the
/// child's process and thread handles. (The parent-side pipe ends live on
/// as the host's reader and writer.)
#[derive(Debug, Copy, Clone, PartialEq, Eq, Structural)]
pub struct SessionHandles {
    pub console: u64,
    pub conpty_input: u64,
    pub conpty_output: u64,
    pub process: u64,
    pub thread: u64,
}

impl SessionHandles {
    /// The order teardown must close in: the pseudo-console strictly before
    /// the process and thread handles — while the console is open the OS
    /// still considers them in use — with the inherited pipe ends between.
    pub fn teardown_sequence(&self) -> (plan: Vec<u64>)
        ensures
            plan@ == seq![
                self.console,
                self.conpty_input,
                self.conpty_output,
                self.process,
                self.thread,
            ],
    {
        let mut plan: Vec<u64> = Vec::new();
        plan.push(self.console);
        plan.push(self.conpty_input);
        plan.push(self.conpty_output);
        plan.push(self.process);
        plan.push(self.thread);
        proof {
            assert(plan@ =~= seq![
                self.console,
                self.conpty_input,
                self.conpty_output,
                self.process,
                self.thread,
            ]);
        }
        plan
    }
}

/// A spawn attempt that fails at any intermediate resource step leaks
/// nothing: after the abort, the attempt holds zero handles, and the close
/// plan names every handle exactly once, newest first — whichever prefix of
/// the acquisition sequence had been reached.
pub proof fn lemma_abort_leaks_nothing(acquired: Seq<u64>, plan: Seq<u64>)
    requires
        plan == acquired.reverse(),
    ensures
        plan.len() == acquired.len(),
        forall|i: int| 0 <= i < plan.len() ==> plan[i] == acquired[plan.len() - 1 - i],
        forall|h: u64| plan.contains(h) <==> acquired.contains(h),
{
    assert forall|h: u64| plan.contains(h) <==> acquired.contains(h) by {
        if plan.contains(h) {
            let j = choose|j: int| 0 <= j < plan.len() && plan[j] == h;
            assert(acquired[acquired.len() - 1 - j] == h);
        }
        if acquired.contains(h) {
            let j = choose|j: int| 0 <= j < acquired.len() && acquired[j] == h;
            assert(plan[acquired.len() - 1 - j] == h);
        }
    }
}

} // verus!
