//! Log writers: stages that decide whether a serialized item goes on to the
//! output, and which output stream it goes to.
use vstd::prelude::*;

use crate::{position, rank_of, Severity};

verus! {

/// A serialized item with its severity, handed on to the output.
pub struct Line {
    pub text: String,
    pub level: Severity,
}

/// What a writer handed on, as plain values.
pub open spec fn line_view(out: Option<Line>) -> Option<(Seq<char>, Severity)> {
    match out {
        Some(l) => Some((l.text@, l.level)),
        None => None,
    }
}

/// A standard output stream.
#[derive(Clone, Copy, Debug, PartialEq, Eq, Structural)]
pub enum Stream {
    Stdout,
    Stderr,
}

/// The stream a line of the given severity is printed on: trace, debug and
/// info go to standard output, the rest to standard error.
pub open spec fn stream_spec(level: Severity) -> Stream {
    match level {
        Severity::Trace | Severity::Debug | Severity::Info => Stream::Stdout,
        _ => Stream::Stderr,
    }
}

/// The stream a line of the given severity is printed on.
pub fn stream_of(level: Severity) -> (r: Stream)
    ensures
        r == stream_spec(level),
{
    match level {
        Severity::Trace => Stream::Stdout,
        Severity::Debug => Stream::Stdout,
        Severity::Info => Stream::Stdout,
        Severity::Warn => Stream::Stderr,
        Severity::Error => Stream::Stderr,
        Severity::Fatal => Stream::Stderr,
    }
}

/// A log writer: takes a serialized item and its severity, and hands a line
/// on to the output or drops it.
pub trait LogWrite: Sized {
    /// Whether `write` may be called.
    spec fn ready(&self) -> bool;

    /// Whether a call on writer `self` may leave it as `after` and hand on `out`.
    spec fn writes(
        &self,
        after: Self,
        serialized: Seq<char>,
        level: Severity,
        out: Option<(Seq<char>, Severity)>,
    ) -> bool;

    /// Writes a serialized item; returns the line handed on to the output.
    fn write(&mut self, serialized: &str, level: Severity) -> (out: Option<Line>)
        requires
            old(self).ready(),
        ensures
            final(self).ready(),
            old(self).writes(*final(self), serialized@, level, line_view(out)),
    ;
}

/// The console writer: hands every line on, to be printed on the stream
/// that `stream_of` gives for its severity.
pub struct StdWrite;

impl LogWrite for StdWrite {
    open spec fn ready(&self) -> bool {
        true
    }

    open spec fn writes(
        &self,
        after: Self,
        serialized: Seq<char>,
        level: Severity,
        out: Option<(Seq<char>, Severity)>,
    ) -> bool {
        out == Some((serialized, level))
    }

    fn write(&mut self, serialized: &str, level: Severity) -> (out: Option<Line>) {
        Some(Line { text: serialized.to_owned(), level })
    }
}

/// A writer that passes on to `internal` only the severities that
/// `check_level` accepts.
pub struct FnWrite<W, L> {
    pub internal: W,
    pub check_level: L,
}

impl<W: LogWrite, L: Fn(Severity) -> bool> LogWrite for FnWrite<W, L> {
    open spec fn ready(&self) -> bool {
        &&& self.internal.ready()
        &&& forall|s: Severity| self.check_level.requires((s,))
    }

    open spec fn writes(
        &self,
        after: Self,
        serialized: Seq<char>,
        level: Severity,
        out: Option<(Seq<char>, Severity)>,
    ) -> bool {
        &&& after.check_level == self.check_level
        &&& exists|b: bool| #[trigger]
            self.check_level.ensures((level,), b) && if b {
                self.internal.writes(after.internal, serialized, level, out)
            } else {
                after.internal == self.internal && out is None
            }
    }

    fn write(&mut self, serialized: &str, level: Severity) -> (out: Option<Line>) {
        let b = (self.check_level)(level);
        if b {
            let out = self.internal.write(serialized, level);
            assert(self.check_level.ensures((level,), b));
            out
        } else {
            assert(self.check_level.ensures((level,), b));
            None
        }
    }
}

/// Creates a log writer which passes on to `internal` only the severities
/// for which `check_level` returns true.
pub fn log_writer_new_from_fn<W: LogWrite, L: Fn(Severity) -> bool>(
    internal: W,
    check_level: L,
) -> (r: FnWrite<W, L>)
    ensures
        r.internal == internal,
        r.check_level == check_level,
{
    FnWrite { internal, check_level }
}

/// Creates a console writer which drops the severities that `check_level`
/// refuses.
pub fn log_writer_new_std_default_from_fn<L: Fn(Severity) -> bool>(check_level: L) -> (r: FnWrite<
    StdWrite,
    L,
>)
    ensures
        r.check_level == check_level,
{
    log_writer_new_from_fn(StdWrite, check_level)
}

/// Creates a severity check that accepts exactly the severities whose rank
/// is at least that of `lb_inclusive`.
pub fn level_checker_from_lower_bound(lb_inclusive: Severity) -> (r: impl Fn(Severity) -> bool)
    ensures
        forall|s: Severity| r.requires((s,)),
        forall|s: Severity, b: bool| r.ensures((s,), b) ==> b == (rank_of(lb_inclusive) <= rank_of(s)),
{
    let lbi: u8 = lb_inclusive.rank();
    move |level: Severity| -> (b: bool)
        ensures
            b == (rank_of(lb_inclusive) <= rank_of(level)),
        {
            let u: u8 = level.rank();
            lbi <= u
        }
}

/// Creates a console writer which drops every severity ranked below
/// `lb_inclusive`.
pub fn log_writer_new_std_default_from_lower_bound(lb_inclusive: Severity) -> (r: FnWrite<
    StdWrite,
    impl Fn(Severity) -> bool,
>)
    ensures
        r.ready(),
        forall|s: Severity, b: bool|
            r.check_level.ensures((s,), b) ==> b == (rank_of(lb_inclusive) <= rank_of(s)),
{
    log_writer_new_std_default_from_fn(level_checker_from_lower_bound(lb_inclusive))
}

/// A writer gated by a lower bound passes a line on to its inner writer,
/// with the same text and severity, exactly when the severity is ranked at
/// least as high as the bound; otherwise nothing reaches the inner writer.
pub proof fn lemma_lower_bound_gate<W: LogWrite, L: Fn(Severity) -> bool>(
    w: FnWrite<W, L>,
    after: FnWrite<W, L>,
    lb: Severity,
    serialized: Seq<char>,
    level: Severity,
    out: Option<(Seq<char>, Severity)>,
)
    requires
        forall|s: Severity, b: bool| w.check_level.ensures((s,), b) ==> b == (rank_of(lb) <= rank_of(s)),
        w.writes(after, serialized, level, out),
    ensures
        rank_of(lb) <= rank_of(level) ==> w.internal.writes(after.internal, serialized, level, out),
        rank_of(level) < rank_of(lb) ==> after.internal == w.internal && out is None,
{
}

/// A stateful check of whether a line of some severity may go out now.
pub trait LogAvailable: Sized {
    /// Whether the check may be called.
    spec fn ready(&self) -> bool;

    /// Whether a check of `level` on `self` may answer `r` and leave `after`.
    spec fn grants(&self, after: Self, level: Severity, r: bool) -> bool;

    /// Checks whether a line of `level` may go out, and records the answer.
    fn available(&mut self, level: Severity) -> (r: bool)
        requires
            old(self).ready(),
        ensures
            final(self).ready(),
            old(self).grants(*final(self), level, r),
    ;
}

/// A writer that asks `state` before each line whether it may go out.
pub struct LimitedWrite<W, S> {
    pub writer: W,
    pub state: S,
}

impl<W: LogWrite, S: LogAvailable> LogWrite for LimitedWrite<W, S> {
    open spec fn ready(&self) -> bool {
        self.writer.ready() && self.state.ready()
    }

    open spec fn writes(
        &self,
        after: Self,
        serialized: Seq<char>,
        level: Severity,
        out: Option<(Seq<char>, Severity)>,
    ) -> bool {
        exists|b: bool| #[trigger]
            self.state.grants(after.state, level, b) && if b {
                self.writer.writes(after.writer, serialized, level, out)
            } else {
                after.writer == self.writer && out is None
            }
    }

    fn write(&mut self, serialized: &str, level: Severity) -> (out: Option<Line>) {
        let ghost state0 = self.state;
        let b = self.state.available(level);
        if b {
            self.writer.write(serialized, level)
        } else {
            assert(state0.grants(self.state, level, b));
            None
        }
    }
}

/// Creates a log writer which drops the lines that `log_available` refuses.
pub fn limited_writer_new<L: LogWrite, S: LogAvailable>(original: L, log_available: S) -> (r:
    LimitedWrite<L, S>)
    ensures
        r.writer == original,
        r.state == log_available,
{
    LimitedWrite { writer: original, state: log_available }
}

#[verifier::external_type_specification]
#[verifier::external_body]
pub struct ExInstant(std::time::Instant);

/// Relies on std::time::Instant::now for a point of the monotonic clock;
/// nothing is promised of the value.
pub assume_specification[ std::time::Instant::now ]() -> std::time::Instant;

/// Relies on std::time::Instant::elapsed: the nanoseconds since `start` by
/// the monotonic clock; nothing is promised of the value.
#[verifier::external_body]
fn elapsed_nanos(start: &std::time::Instant) -> (r: u128) {
    start.elapsed().as_nanos()
}

/// Whether a line of `level` may go out at time `now`, given when the last
/// line of each severity went out: none of `level` went out before, or the
/// time since the last one, counted as zero if the clock reads earlier, is
/// at least `min_duration`.
pub open spec fn permits_in(
    last: Seq<Option<u128>>,
    min_duration: u128,
    level: Severity,
    now: u128,
) -> bool {
    match last[position(level)] {
        None => true,
        Some(t) => (if now >= t {
            now - t
        } else {
            0
        }) >= min_duration,
    }
}

/// Per-severity rate limiting: a line may go out if no line of the same
/// severity went out less than `min_duration` nanoseconds before.
pub struct RateLimiter {
    /// The origin of the clock readings.
    pub start: std::time::Instant,
    /// The least time between two lines of one severity, in nanoseconds.
    pub min_duration: u128,
    /// For each severity, by position, when its last line went out.
    pub last: Vec<Option<u128>>,
}

impl RateLimiter {
    /// One slot per severity.
    pub open spec fn wf(&self) -> bool {
        self.last@.len() == 6
    }

    /// When the last line of `level` went out, if one did.
    pub open spec fn last_of(&self, level: Severity) -> Option<u128> {
        self.last@[position(level)]
    }

    /// Whether a line of `level` may go out at time `now`.
    pub open spec fn permits(&self, level: Severity, now: u128) -> bool {
        permits_in(self.last@, self.min_duration, level, now)
    }

    /// The slots after a check of `level` at time `now`: the time is
    /// recorded when the line may go out.
    pub open spec fn last_after(&self, level: Severity, now: u128) -> Seq<Option<u128>> {
        if self.permits(level, now) {
            self.last@.update(position(level), Some(now))
        } else {
            self.last@
        }
    }

    /// A rate limiter with no line sent yet.
    pub fn new(min_duration: u128) -> (r: RateLimiter)
        ensures
            r.wf(),
            r.min_duration == min_duration,
            forall|i: int| 0 <= i < 6 ==> #[trigger] r.last@[i] is None,
    {
        let mut last: Vec<Option<u128>> = Vec::new();
        let mut i: usize = 0;
        while i < 6
            invariant
                i <= 6,
                last@.len() == i,
                forall|j: int| 0 <= j < i ==> last@[j] is None,
            decreases 6 - i,
        {
            last.push(None);
            i = i + 1;
        }
        RateLimiter { start: std::time::Instant::now(), min_duration, last }
    }

    /// Checks whether a line of `level` may go out at time `now`, and
    /// records `now` for `level` if it may.
    pub fn available_at(&mut self, level: Severity, now: u128) -> (r: bool)
        requires
            old(self).wf(),
        ensures
            r == old(self).permits(level, now),
            final(self).last@ == old(self).last_after(level, now),
            final(self).start == old(self).start,
            final(self).min_duration == old(self).min_duration,
            final(self).wf(),
    {
        let i: usize = match level {
            Severity::Trace => 0,
            Severity::Debug => 1,
            Severity::Info => 2,
            Severity::Warn => 3,
            Severity::Error => 4,
            Severity::Fatal => 5,
        };
        let r = match self.last[i] {
            None => true,
            Some(t) => {
                let elapsed: u128 = if now >= t {
                    now - t
                } else {
                    0
                };
                elapsed >= self.min_duration
            },
        };
        if r {
            self.last.set(i, Some(now));
        }
        r
    }
}

impl LogAvailable for RateLimiter {
    open spec fn ready(&self) -> bool {
        self.wf()
    }

    open spec fn grants(&self, after: Self, level: Severity, r: bool) -> bool {
        exists|now: u128| #[trigger]
            self.permits(level, now) == r && after.last@ == self.last_after(level, now)
                && after.start == self.start && after.min_duration == self.min_duration
    }

    fn available(&mut self, level: Severity) -> (r: bool) {
        let now = elapsed_nanos(&self.start);
        let r = self.available_at(level, now);
        assert(old(self).permits(level, now) == r);
        r
    }
}

/// Rate limiting per severity: once a line of `level` went out at `t1`,
/// the next one at `t2` may go out exactly when at least `min_duration`
/// passed, and every other severity is judged as before.
pub proof fn lemma_rate_limit(r: RateLimiter, level: Severity, t1: u128, t2: u128)
    requires
        r.wf(),
        r.permits(level, t1),
        t1 <= t2,
    ensures
        permits_in(r.last_after(level, t1), r.min_duration, level, t2) <==> t2 - t1
            >= r.min_duration,
        forall|other: Severity, t: u128|
            other != level ==> permits_in(r.last_after(level, t1), r.min_duration, other, t)
                == r.permits(other, t),
{
    assert forall|other: Severity, t: u128| other != level implies permits_in(
        r.last_after(level, t1),
        r.min_duration,
        other,
        t,
    ) == r.permits(other, t) by {
        assert(position(other) != position(level));
    }
}

impl<W: LogWrite> LimitedWrite<W, RateLimiter> {
    /// Writes at clock reading `now`: the line goes to the inner writer
    /// exactly when the rate limiter permits it at `now`.
    pub fn write_at(&mut self, serialized: &str, level: Severity, now: u128) -> (out: Option<Line>)
        requires
            old(self).ready(),
        ensures
            final(self).ready(),
            final(self).state.last@ == old(self).state.last_after(level, now),
            final(self).state.min_duration == old(self).state.min_duration,
            if old(self).state.permits(level, now) {
                old(self).writer.writes(final(self).writer, serialized@, level, line_view(out))
            } else {
                final(self).writer == old(self).writer && out is None
            },
    {
        if self.state.available_at(level, now) {
            self.writer.write(serialized, level)
        } else {
            None
        }
    }
}

} // verus!
