//! Loggers, and the registry that stamps items and dispatches them to the
//! installed logger.
use vstd::prelude::*;

use crate::proxy::copy::Proxy;
use crate::serialize::Serialize;
use crate::write::{line_view, Line, LogWrite};
use crate::{Item, Severity};

verus! {

/// A logger: takes an item and hands on the line to print, if any.
pub trait Logger: Sized {
    /// Whether `log` may be called.
    spec fn ready(&self) -> bool;

    /// Whether logging `item` on `self` may leave `after` and hand on `out`.
    spec fn logs(&self, after: Self, item: Item, out: Option<(Seq<char>, Severity)>) -> bool;

    /// Logs an item.
    fn log(&mut self, item: Item) -> (out: Option<Line>)
        requires
            old(self).ready(),
        ensures
            final(self).ready(),
            old(self).logs(*final(self), item, line_view(out)),
    ;
}

/// A logger that transforms each item with `proxy` before `original` logs it.
pub struct Proxied<L, P> {
    pub original: L,
    pub proxy: P,
}

impl<L: Logger, P: Proxy> Logger for Proxied<L, P> {
    open spec fn ready(&self) -> bool {
        self.original.ready() && self.proxy.ready()
    }

    open spec fn logs(&self, after: Self, item: Item, out: Option<(Seq<char>, Severity)>) -> bool {
        &&& after.proxy == self.proxy
        &&& exists|neo: Item| #[trigger]
            self.proxy.transforms(item, neo) && self.original.logs(after.original, neo, out)
    }

    fn log(&mut self, item: Item) -> (out: Option<Line>) {
        let neo = self.proxy.get_item(item);
        let ghost original0 = self.original;
        let out = self.original.log(neo);
        assert(self.proxy.transforms(item, neo) && original0.logs(self.original, neo, line_view(out)));
        out
    }
}

/// Creates a logger which transforms each item with `proxy` before
/// `original` logs it.
pub fn logger_new_from_proxy<L: Logger, P: Proxy>(original: L, proxy: P) -> (r: Proxied<L, P>)
    ensures
        r.original == original,
        r.proxy == proxy,
{
    Proxied { original, proxy }
}

/// A logger that calls a function on each item.
pub struct FnLogger<F> {
    pub internal: F,
}

impl<F: Fn(Item) -> Option<Line>> Logger for FnLogger<F> {
    open spec fn ready(&self) -> bool {
        forall|i: Item| self.internal.requires((i,))
    }

    open spec fn logs(&self, after: Self, item: Item, out: Option<(Seq<char>, Severity)>) -> bool {
        &&& after.internal == self.internal
        &&& exists|o: Option<Line>| #[trigger]
            self.internal.ensures((item,), o) && line_view(o) == out
    }

    fn log(&mut self, item: Item) -> (out: Option<Line>) {
        let out = (self.internal)(item);
        assert(self.internal.ensures((item,), out) && line_view(out) == line_view(out));
        out
    }
}

/// Creates a logger from a logging function.
pub fn logger_new_from_fn<F: Fn(Item) -> Option<Line>>(internal: F) -> (r: FnLogger<F>)
    ensures
        r.internal == internal,
{
    FnLogger { internal }
}

/// A logger that serializes each item and writes the text with the item's
/// severity.
pub struct WriteSerialized<S, W> {
    pub serialize: S,
    pub write: W,
}

impl<S: Serialize, W: LogWrite> Logger for WriteSerialized<S, W> {
    open spec fn ready(&self) -> bool {
        self.serialize.ready() && self.write.ready()
    }

    open spec fn logs(&self, after: Self, item: Item, out: Option<(Seq<char>, Severity)>) -> bool {
        &&& after.serialize == self.serialize
        &&& exists|text: Seq<char>| #[trigger]
            self.serialize.renders(item, Seq::empty(), text) && self.write.writes(
                after.write,
                text,
                item.severity,
                out,
            )
    }

    fn log(&mut self, item: Item) -> (out: Option<Line>) {
        let mut buf = String::new();
        self.serialize.serialize(&item, &mut buf);
        let ghost write0 = self.write;
        let out = self.write.write(buf.as_str(), item.severity);
        assert(self.serialize.renders(item, Seq::empty(), buf@) && write0.writes(
            self.write,
            buf@,
            item.severity,
            line_view(out),
        ));
        out
    }
}

/// Creates a logger which serializes each item with `serialize` and writes
/// the text with `write`.
pub fn logger_new<S: Serialize, W: LogWrite>(serialize: S, write: W) -> (r: WriteSerialized<S, W>)
    ensures
        r.serialize == serialize,
        r.write == write,
{
    WriteSerialized { serialize, write }
}

/// The slot for the logger that dispatched items go to; empty at first.
pub struct Registry<L> {
    pub logger: Option<L>,
}

impl<L: Logger> Registry<L> {
    /// A registry with no logger installed.
    pub fn new() -> (r: Registry<L>)
        ensures
            r.logger is None,
    {
        Registry { logger: None }
    }

    /// Whether the installed logger, if any, may log.
    pub open spec fn ready(&self) -> bool {
        match self.logger {
            Some(l) => l.ready(),
            None => true,
        }
    }
}

/// Installs a logger, replacing the one installed before, if any.
pub fn set<L: Logger>(registry: &mut Registry<L>, neo: L)
    ensures
        final(registry).logger == Some(neo),
{
    registry.logger = Some(neo);
}

/// Installs a boxed logger, replacing the one installed before, if any.
pub fn set_boxed<L: Logger>(registry: &mut Registry<L>, neo: Box<L>)
    ensures
        final(registry).logger == Some(*neo),
{
    set(registry, *neo)
}

/// `item` with its timestamp and severity replaced.
pub open spec fn stamped(item: Item, t: std::time::SystemTime, level: Severity) -> Item {
    Item { timestamp: t, severity: level, ..item }
}

/// Whether dispatching `item` at `level` may turn `registry` into `after`
/// and hand on `out`: with no logger installed nothing happens; otherwise
/// the installed logger logs the item stamped with the current time and
/// `level`.
pub open spec fn dispatches<L: Logger>(
    registry: Registry<L>,
    after: Registry<L>,
    item: Item,
    level: Severity,
    out: Option<(Seq<char>, Severity)>,
) -> bool {
    match registry.logger {
        None => after == registry && out is None,
        Some(l) => after.logger is Some && exists|t: std::time::SystemTime| #[trigger]
            l.logs(after.logger->0, stamped(item, t, level), out),
    }
}

/// Stamps `item` with the current time and `level` and hands it to the
/// installed logger, if any.
fn dispatch<L: Logger>(registry: &mut Registry<L>, original: Item, level: Severity) -> (out: Option<
    Line,
>)
    requires
        old(registry).ready(),
    ensures
        final(registry).ready(),
        dispatches(*old(registry), *final(registry), original, level, line_view(out)),
{
    let ghost item0 = original;
    let mut item = original;
    item.severity = level;
    item.timestamp = std::time::SystemTime::now();
    assert(item == stamped(item0, item.timestamp, level));
    let ghost reg0 = *registry;
    match registry.logger.take() {
        None => {
            assert(*registry == reg0);
            None
        },
        Some(mut l) => {
            let ghost l0 = l;
            let ghost stamp = item.timestamp;
            let out = l.log(item);
            assert(l0.logs(l, stamped(item0, stamp, level), line_view(out)));
            registry.logger = Some(l);
            assert(registry.logger->0 == l);
            assert(reg0.logger->0 == l0);
            assert(dispatches(reg0, *registry, item0, level, line_view(out)));
            out
        },
    }
}

/// Logs an item as a trace-level event.
pub fn log_trace<L: Logger>(registry: &mut Registry<L>, item: Item) -> (out: Option<Line>)
    requires
        old(registry).ready(),
    ensures
        final(registry).ready(),
        dispatches(*old(registry), *final(registry), item, Severity::Trace, line_view(out)),
{
    dispatch(registry, item, Severity::Trace)
}

/// Logs an item as a debugging event.
pub fn log_debug<L: Logger>(registry: &mut Registry<L>, item: Item) -> (out: Option<Line>)
    requires
        old(registry).ready(),
    ensures
        final(registry).ready(),
        dispatches(*old(registry), *final(registry), item, Severity::Debug, line_view(out)),
{
    dispatch(registry, item, Severity::Debug)
}

/// Logs an item as an informational event.
pub fn log_info<L: Logger>(registry: &mut Registry<L>, item: Item) -> (out: Option<Line>)
    requires
        old(registry).ready(),
    ensures
        final(registry).ready(),
        dispatches(*old(registry), *final(registry), item, Severity::Info, line_view(out)),
{
    dispatch(registry, item, Severity::Info)
}

/// Logs an item as a warning event.
pub fn log_warn<L: Logger>(registry: &mut Registry<L>, item: Item) -> (out: Option<Line>)
    requires
        old(registry).ready(),
    ensures
        final(registry).ready(),
        dispatches(*old(registry), *final(registry), item, Severity::Warn, line_view(out)),
{
    dispatch(registry, item, Severity::Warn)
}

/// Logs an item as an error event.
pub fn log_error<L: Logger>(registry: &mut Registry<L>, item: Item) -> (out: Option<Line>)
    requires
        old(registry).ready(),
    ensures
        final(registry).ready(),
        dispatches(*old(registry), *final(registry), item, Severity::Error, line_view(out)),
{
    dispatch(registry, item, Severity::Error)
}

/// Logs an item as a fatal event.
pub fn log_fatal<L: Logger>(registry: &mut Registry<L>, item: Item) -> (out: Option<Line>)
    requires
        old(registry).ready(),
    ensures
        final(registry).ready(),
        dispatches(*old(registry), *final(registry), item, Severity::Fatal, line_view(out)),
{
    dispatch(registry, item, Severity::Fatal)
}

/// With no logger installed, dispatching any item at any severity hands
/// nothing on and leaves the registry as it was.
pub proof fn lemma_dispatch_without_logger<L: Logger>(
    registry: Registry<L>,
    after: Registry<L>,
    item: Item,
    level: Severity,
    out: Option<(Seq<char>, Severity)>,
)
    requires
        registry.logger is None,
        dispatches(registry, after, item, level, out),
    ensures
        after == registry,
        out is None,
{
}

} // verus!
