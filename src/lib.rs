//! A small structured-logging facade: log items, severities, proxies that
//! transform items, serializers, writers that decide what reaches the
//! output, and a registry that dispatches items to the installed logger.
use vstd::prelude::*;

pub mod copy;
pub mod fields;
pub mod proxy;
pub mod serialize;
pub mod write;

use crate::fields::StrMap;

verus! {

/// How important a log event is, from the least to the most severe.
#[derive(Clone, Copy, Debug, PartialEq, Eq, Structural, Hash)]
pub enum Severity {
    Trace,
    Debug,
    Info,
    Warn,
    Error,
    Fatal,
}

/// The numeric rank of a severity; ranks leave gaps for custom levels.
pub open spec fn rank_of(s: Severity) -> u8 {
    match s {
        Severity::Trace => 1,
        Severity::Debug => 5,
        Severity::Info => 9,
        Severity::Warn => 13,
        Severity::Error => 17,
        Severity::Fatal => 21,
    }
}

/// The severity that a numeric rank falls into: each severity owns the four
/// ranks that start at its own rank, and every other rank is `Fatal`.
pub open spec fn severity_of(n: u8) -> Severity {
    if 1 <= n <= 4 {
        Severity::Trace
    } else if 5 <= n <= 8 {
        Severity::Debug
    } else if 9 <= n <= 12 {
        Severity::Info
    } else if 13 <= n <= 16 {
        Severity::Warn
    } else if 17 <= n <= 20 {
        Severity::Error
    } else {
        Severity::Fatal
    }
}

/// The position of a severity in the order Trace < Debug < ... < Fatal.
pub open spec fn position(s: Severity) -> int {
    match s {
        Severity::Trace => 0,
        Severity::Debug => 1,
        Severity::Info => 2,
        Severity::Warn => 3,
        Severity::Error => 4,
        Severity::Fatal => 5,
    }
}

/// The lowercase name of a severity, as serializers print it.
pub open spec fn name_of(s: Severity) -> Seq<char> {
    match s {
        Severity::Trace => "trace"@,
        Severity::Debug => "debug"@,
        Severity::Info => "info"@,
        Severity::Warn => "warn"@,
        Severity::Error => "error"@,
        Severity::Fatal => "fatal"@,
    }
}

impl Severity {
    /// The numeric rank of this severity.
    pub fn rank(&self) -> (r: u8)
        ensures
            r == rank_of(*self),
    {
        match self {
            Severity::Trace => 1,
            Severity::Debug => 5,
            Severity::Info => 9,
            Severity::Warn => 13,
            Severity::Error => 17,
            Severity::Fatal => 21,
        }
    }

    /// The severity that a numeric rank falls into.
    pub fn from_rank(num: u8) -> (r: Severity)
        ensures
            r == severity_of(num),
    {
        if 1 <= num && num <= 4 {
            Severity::Trace
        } else if 5 <= num && num <= 8 {
            Severity::Debug
        } else if 9 <= num && num <= 12 {
            Severity::Info
        } else if 13 <= num && num <= 16 {
            Severity::Warn
        } else if 17 <= num && num <= 20 {
            Severity::Error
        } else {
            Severity::Fatal
        }
    }

    /// The lowercase name of this severity.
    pub fn as_str(&self) -> (r: &'static str)
        ensures
            r@ == name_of(*self),
    {
        match self {
            Severity::Trace => "trace",
            Severity::Debug => "debug",
            Severity::Info => "info",
            Severity::Warn => "warn",
            Severity::Error => "error",
            Severity::Fatal => "fatal",
        }
    }
}

impl From<u8> for Severity {
    fn from(num: u8) -> (r: Severity) {
        Severity::from_rank(num)
    }
}

impl vstd::std_specs::convert::FromSpecImpl<u8> for Severity {
    open spec fn obeys_from_spec() -> bool {
        true
    }

    open spec fn from_spec(num: u8) -> Severity {
        severity_of(num)
    }
}

impl From<Severity> for u8 {
    fn from(s: Severity) -> (r: u8) {
        s.rank()
    }
}

impl vstd::std_specs::convert::FromSpecImpl<Severity> for u8 {
    open spec fn obeys_from_spec() -> bool {
        true
    }

    open spec fn from_spec(s: Severity) -> u8 {
        rank_of(s)
    }
}

/// Ranks grow with the order of the severities, and every severity comes
/// back unchanged from its own rank.
pub proof fn lemma_rank_order_and_round_trip(a: Severity, b: Severity)
    ensures
        position(a) < position(b) ==> rank_of(a) < rank_of(b),
        position(a) <= position(b) <==> rank_of(a) <= rank_of(b),
        severity_of(rank_of(a)) == a,
{
}

/// A rank outside every severity's own ranges, such as 0 or anything above
/// 24, falls into `Fatal`.
pub proof fn lemma_unknown_rank_is_fatal(n: u8)
    requires
        n == 0 || n > 24,
    ensures
        severity_of(n) == Severity::Fatal,
{
}

#[verifier::external_type_specification]
#[verifier::external_body]
pub struct ExSystemTime(std::time::SystemTime);

/// Relies on std::time::SystemTime::now for the current wall-clock time;
/// nothing is promised of the value.
pub assume_specification[ std::time::SystemTime::now ]() -> std::time::SystemTime;

/// One log event.
pub struct Item {
    /// When the event was dispatched; overwritten at dispatch.
    pub timestamp: std::time::SystemTime,
    /// Overwritten by the dispatch function of each severity.
    pub severity: Severity,
    /// The human-readable message.
    pub body: String,
    /// Structured fields given by the caller, sorted by key.
    pub attributes: StrMap,
    /// Deployment metadata, sorted by key; placeholders are filled by a proxy.
    pub resource: StrMap,
    pub trace_id: Option<String>,
    pub span_id: Option<String>,
}

impl Item {
    /// An item with the given body and attributes, severity `Trace`, no
    /// resource fields and no trace or span ids.
    pub fn new(body: &str, attr: StrMap) -> (r: Item)
        ensures
            r.body@ == body@,
            r.attributes == attr,
            r.severity == Severity::Trace,
            r.resource@ == Seq::<(Seq<char>, Seq<char>)>::empty(),
            r.resource.wf(),
            r.trace_id is None,
            r.span_id is None,
    {
        Item {
            timestamp: std::time::SystemTime::now(),
            severity: Severity::Trace,
            body: body.to_owned(),
            attributes: attr,
            resource: StrMap::new(),
            trace_id: None,
            span_id: None,
        }
    }

    /// The same item with its resource fields replaced by one empty
    /// placeholder for each of the given keys.
    pub fn with_resource_keys(self, keys: &[&str]) -> (r: Item)
        ensures
            r.timestamp == self.timestamp,
            r.severity == self.severity,
            r.body == self.body,
            r.attributes == self.attributes,
            r.trace_id == self.trace_id,
            r.span_id == self.span_id,
            r.resource.wf(),
            forall|k: Seq<char>|
                #[trigger] fields::has_key(r.resource@, k) <==> exists|i: int|
                    0 <= i < keys@.len() && keys@[i]@ == k,
            forall|i: int| 0 <= i < r.resource@.len() ==> (#[trigger] r.resource@[i]).1.len() == 0,
    {
        let mut resource = StrMap::new();
        let mut i: usize = 0;
        while i < keys.len()
            invariant
                i <= keys@.len(),
                resource.wf(),
                forall|k: Seq<char>|
                    #[trigger] fields::has_key(resource@, k) <==> exists|j: int|
                        0 <= j < i && keys@[j]@ == k,
                forall|j: int|
                    0 <= j < resource@.len() ==> (#[trigger] resource@[j]).1.len() == 0,
            decreases keys@.len() - i,
        {
            let key: &str = keys[i];
            resource.insert(key.to_owned(), String::new());
            proof {
                assert forall|k: Seq<char>|
                    #[trigger] fields::has_key(resource@, k) <==> exists|j: int|
                        0 <= j < i + 1 && keys@[j]@ == k by {
                    if k == key@ {
                        assert(keys@[i as int]@ == k);
                    }
                    if exists|j: int| 0 <= j < i + 1 && keys@[j]@ == k {
                        let j = choose|j: int| 0 <= j < i + 1 && keys@[j]@ == k;
                        if j < i {
                            assert(exists|j: int| 0 <= j < i && keys@[j]@ == k);
                        }
                    }
                }
            }
            i = i + 1;
        }
        Item {
            timestamp: self.timestamp,
            severity: self.severity,
            body: self.body,
            attributes: self.attributes,
            resource,
            trace_id: self.trace_id,
            span_id: self.span_id,
        }
    }
}

} // verus!
