//! Proxies: transforms that take a log item by value and hand back an item.
use vstd::prelude::*;

use crate::fields::{lookup, StrMap};
use crate::Item;

verus! {

/// A transform from one log item to another.
pub trait Proxy: Sized {
    /// Whether `get_item` may be called on any item.
    spec fn ready(&self) -> bool;

    /// Whether `b` is a possible result of transforming `a`.
    spec fn transforms(&self, a: Item, b: Item) -> bool;

    /// Transforms an item.
    fn get_item(&self, original: Item) -> (r: Item)
        requires
            self.ready(),
        ensures
            self.transforms(original, r),
    ;
}

/// A proxy that calls a function on each item.
pub struct ProxyFn<P> {
    pub internal: P,
}

impl<P: Fn(Item) -> Item> Proxy for ProxyFn<P> {
    open spec fn ready(&self) -> bool {
        forall|a: Item| self.internal.requires((a,))
    }

    open spec fn transforms(&self, a: Item, b: Item) -> bool {
        self.internal.ensures((a,), b)
    }

    fn get_item(&self, original: Item) -> (r: Item) {
        (self.internal)(original)
    }
}

/// Creates a proxy which uses a function to transform an item.
pub fn proxy_new_from_fn<P: Fn(Item) -> Item>(internal: P) -> (r: ProxyFn<P>)
    ensures
        r.internal == internal,
{
    ProxyFn { internal }
}

/// Two proxies applied one after the other.
pub struct Join<P, Q> {
    pub first: P,
    pub second: Q,
}

impl<P: Proxy, Q: Proxy> Proxy for Join<P, Q> {
    open spec fn ready(&self) -> bool {
        self.first.ready() && self.second.ready()
    }

    open spec fn transforms(&self, a: Item, c: Item) -> bool {
        exists|b: Item| #[trigger]
            self.first.transforms(a, b) && self.second.transforms(b, c)
    }

    fn get_item(&self, original: Item) -> (r: Item) {
        let after_first = self.first.get_item(original);
        let r = self.second.get_item(after_first);
        assert(self.first.transforms(original, after_first) && self.second.transforms(
            after_first,
            r,
        ));
        r
    }
}

/// Creates a proxy that applies `p`, then `q` to what `p` returned.
pub fn proxy_join<P: Proxy, Q: Proxy>(p: P, q: Q) -> (r: Join<P, Q>)
    ensures
        r.first == p,
        r.second == q,
{
    Join { first: p, second: q }
}

/// Joining is associative: `(p then q) then r` and `p then (q then r)`
/// relate exactly the same items.
pub proof fn lemma_join_associative<P: Proxy, Q: Proxy, R: Proxy>(
    p: P,
    q: Q,
    r: R,
    a: Item,
    d: Item,
)
    ensures
        (Join { first: Join { first: p, second: q }, second: r }).transforms(a, d) <==> (Join {
            first: p,
            second: Join { first: q, second: r },
        }).transforms(a, d),
        (Join { first: Join { first: p, second: q }, second: r }).ready() <==> (Join {
            first: p,
            second: Join { first: q, second: r },
        }).ready(),
{
    let left = Join { first: Join { first: p, second: q }, second: r };
    let right = Join { first: p, second: Join { first: q, second: r } };
    if left.transforms(a, d) {
        let c = choose|c: Item| #[trigger]
            left.first.transforms(a, c) && r.transforms(c, d);
        let b = choose|b: Item| #[trigger] p.transforms(a, b) && q.transforms(b, c);
        assert(right.second.first.transforms(b, c) && right.second.second.transforms(c, d));
        assert(right.second.transforms(b, d));
        assert(p.transforms(a, b) && right.second.transforms(b, d));
    }
    if right.transforms(a, d) {
        let b = choose|b: Item| #[trigger] p.transforms(a, b) && right.second.transforms(b, d);
        let c = choose|c: Item| #[trigger] q.transforms(b, c) && r.transforms(c, d);
        assert(left.first.first.transforms(a, b) && left.first.second.transforms(b, c));
        assert(left.first.transforms(a, c));
        assert(left.first.transforms(a, c) && r.transforms(c, d));
    }
}

/// A source of resource values by name.
pub trait ResourceProxy: Sized {
    /// The value for `name`, if there is one.
    spec fn resource(&self, name: Seq<char>) -> Option<Seq<char>>;

    /// Tries to get a value for a name.
    fn get_resource(&self, name: &str) -> (r: Option<&str>)
        ensures
            match r {
                Some(v) => self.resource(name@) == Some(v@),
                None => self.resource(name@) is None,
            },
    ;
}

/// Resource values held in a map.
pub struct ResourceProxyMap {
    pub internal: StrMap,
}

impl ResourceProxy for ResourceProxyMap {
    open spec fn resource(&self, name: Seq<char>) -> Option<Seq<char>> {
        lookup(self.internal@, name)
    }

    fn get_resource(&self, name: &str) -> (r: Option<&str>) {
        self.internal.get(name)
    }
}

/// Creates a resource proxy from a map.
pub fn resource_proxy_new_from_map(internal: StrMap) -> (r: ResourceProxyMap)
    ensures
        r.internal == internal,
{
    ResourceProxyMap { internal }
}

/// The entries `e` with each value replaced by the resource value of its
/// key, where `r` has one; keys stay as they are.
pub open spec fn filled<R: ResourceProxy>(r: R, e: Seq<(Seq<char>, Seq<char>)>) -> Seq<
    (Seq<char>, Seq<char>),
> {
    e.map_values(
        |p: (Seq<char>, Seq<char>)|
            (
                p.0,
                match r.resource(p.0) {
                    Some(v) => v,
                    None => p.1,
                },
            ),
    )
}

/// A proxy that fills an item's resource placeholders from a resource proxy.
pub struct ResourceFill<R> {
    pub resource_proxy: R,
}

impl<R: ResourceProxy> Proxy for ResourceFill<R> {
    open spec fn ready(&self) -> bool {
        true
    }

    open spec fn transforms(&self, a: Item, b: Item) -> bool {
        &&& b.timestamp == a.timestamp
        &&& b.severity == a.severity
        &&& b.body == a.body
        &&& b.attributes == a.attributes
        &&& b.resource@ == filled(self.resource_proxy, a.resource@)
        &&& b.trace_id == a.trace_id
        &&& b.span_id == a.span_id
    }

    fn get_item(&self, original: Item) -> (r: Item) {
        let mut item = original;
        let ghost e = item.resource@;
        let n = item.resource.len();
        let mut i: usize = 0;
        while i < n
            invariant
                n == e.len(),
                i <= n,
                e == original.resource@,
                item.resource@.len() == n,
                forall|j: int| 0 <= j < i ==> item.resource@[j] == filled(self.resource_proxy, e)[j],
                forall|j: int| i <= j < n ==> item.resource@[j] == e[j],
                item.timestamp == original.timestamp,
                item.severity == original.severity,
                item.body == original.body,
                item.attributes == original.attributes,
                item.trace_id == original.trace_id,
                item.span_id == original.span_id,
            decreases n - i,
        {
            let found = self.resource_proxy.get_resource(item.resource.key_at(i));
            match found {
                None => {},
                Some(v) => {
                    item.resource.set_value_at(i, v.to_owned());
                },
            }
            i = i + 1;
        }
        assert(item.resource@ =~= filled(self.resource_proxy, e));
        item
    }
}

/// Creates a proxy which fills each resource field that the item already
/// has with the value that `resource_proxy` gives for its key, if any.
pub fn proxy_new_from_resource_proxy<R: ResourceProxy>(resource_proxy: R) -> (r: ResourceFill<R>)
    ensures
        r.resource_proxy == resource_proxy,
{
    ResourceFill { resource_proxy }
}

} // verus!
