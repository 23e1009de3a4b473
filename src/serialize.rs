//! Serializers: turn a log item into text.
use vstd::prelude::*;
use vstd::string::StringExecFns;

use crate::fields::StrMap;
use crate::{name_of, Item};

verus! {

/// Writes a log item into a string.
pub trait Serialize: Sized {
    /// Whether `serialize` may be called on any item.
    spec fn ready(&self) -> bool;

    /// Whether serializing `item` may turn buffer contents `before` into `after`.
    spec fn renders(&self, item: Item, before: Seq<char>, after: Seq<char>) -> bool;

    /// Appends the text of `item` to `buf`.
    fn serialize(&self, item: &Item, buf: &mut String)
        requires
            self.ready(),
        ensures
            self.renders(*item, old(buf)@, final(buf)@),
    ;
}

/// A serializer that calls a function on each item; the function returns
/// the text to append.
pub struct FnSer<S> {
    pub internal: S,
}

impl<S: Fn(&Item) -> String> Serialize for FnSer<S> {
    open spec fn ready(&self) -> bool {
        forall|i: &Item| self.internal.requires((i,))
    }

    open spec fn renders(&self, item: Item, before: Seq<char>, after: Seq<char>) -> bool {
        exists|text: String| #[trigger]
            self.internal.ensures((&item,), text) && after == before + text@
    }

    fn serialize(&self, item: &Item, buf: &mut String) {
        let text = (self.internal)(item);
        buf.append(text.as_str());
        assert(self.internal.ensures((item,), text) && final(buf)@ == old(buf)@ + text@);
    }
}

/// Creates a serializer which uses a function to render an item.
pub fn serializer_new_from_fn<S: Fn(&Item) -> String>(internal: S) -> (r: FnSer<S>)
    ensures
        r.internal == internal,
{
    FnSer { internal }
}

/// The fields of `e`, each as `prefix`, key, `:` and value, in order.
pub open spec fn fields_text(prefix: Seq<char>, e: Seq<(Seq<char>, Seq<char>)>) -> Seq<char>
    decreases e.len(),
{
    if e.len() == 0 {
        Seq::empty()
    } else {
        fields_text(prefix, e.drop_last()) + prefix + e.last().0 + ":"@ + e.last().1
    }
}

/// The LTSV text of an item: its level, each attribute as `attr.<key>`,
/// each resource field, and the message, separated by tabs.
pub open spec fn ltsv_text(item: Item) -> Seq<char> {
    "level:"@ + name_of(item.severity) + fields_text("\tattr."@, item.attributes@) + fields_text(
        "\t"@,
        item.resource@,
    ) + "\tmsg:"@ + item.body@
}

/// The LTSV serializer.
pub struct Ltsv;

/// Appends the fields of `m` to `buf`, each as `prefix`, key, `:` and value.
fn append_fields(buf: &mut String, prefix: &str, m: &StrMap)
    ensures
        final(buf)@ == old(buf)@ + fields_text(prefix@, m@),
{
    let n = m.len();
    let mut i: usize = 0;
    assert(m@.take(0) =~= Seq::<(Seq<char>, Seq<char>)>::empty());
    while i < n
        invariant
            n == m@.len(),
            i <= n,
            buf@ == old(buf)@ + fields_text(prefix@, m@.take(i as int)),
        decreases n - i,
    {
        buf.append(prefix);
        buf.append(m.key_at(i));
        buf.append(":");
        buf.append(m.value_at(i));
        proof {
            let t = m@.take(i + 1);
            assert(t.drop_last() =~= m@.take(i as int));
            assert(t.last() == m@[i as int]);
        }
        i = i + 1;
    }
    assert(m@.take(n as int) =~= m@);
}

impl Serialize for Ltsv {
    open spec fn ready(&self) -> bool {
        true
    }

    open spec fn renders(&self, item: Item, before: Seq<char>, after: Seq<char>) -> bool {
        after == before + ltsv_text(item)
    }

    fn serialize(&self, item: &Item, buf: &mut String) {
        buf.append("level:");
        buf.append(item.severity.as_str());
        append_fields(buf, "\tattr.", &item.attributes);
        append_fields(buf, "\t", &item.resource);
        buf.append("\tmsg:");
        buf.append(item.body.as_str());
        assert(final(buf)@ =~= old(buf)@ + ltsv_text(*item));
    }
}

/// Creates the LTSV serializer.
pub fn ltsv_serializer() -> (r: Ltsv) {
    Ltsv
}

} // verus!
