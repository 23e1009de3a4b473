//! A map from string keys to string values that keeps its entries sorted by
//! key, so that serializers walk it in a fixed order.
use vstd::prelude::*;
use vstd::utf8::{encode_utf8, encode_utf8_decode_utf8};

verus! {

/// Lexicographic order on bytes, from position `i` on: the first differing
/// byte decides, and a proper prefix comes first.
pub open spec fn bytes_less_from(a: Seq<u8>, b: Seq<u8>, i: int) -> bool
    decreases a.len() - i,
{
    if i < 0 || i >= a.len() {
        0 <= i < b.len()
    } else if i >= b.len() {
        false
    } else if a[i] != b[i] {
        a[i] < b[i]
    } else {
        bytes_less_from(a, b, i + 1)
    }
}

/// The order of keys: that of their UTF-8 bytes, as for Rust's `String`.
pub open spec fn key_less(a: Seq<char>, b: Seq<char>) -> bool {
    bytes_less_from(encode_utf8(a), encode_utf8(b), 0)
}

/// Each key comes before the next one.
pub open spec fn keys_sorted(e: Seq<(Seq<char>, Seq<char>)>) -> bool {
    forall|i: int| 0 <= i < e.len() - 1 ==> key_less(#[trigger] e[i].0, e[i + 1].0)
}

/// No key occurs twice.
pub open spec fn keys_unique(e: Seq<(Seq<char>, Seq<char>)>) -> bool {
    forall|i: int, j: int| 0 <= i < j < e.len() ==> (#[trigger] e[i]).0 != (#[trigger] e[j]).0
}

/// Whether some entry has key `k`.
pub open spec fn has_key(e: Seq<(Seq<char>, Seq<char>)>, k: Seq<char>) -> bool {
    exists|i: int| 0 <= i < e.len() && (#[trigger] e[i]).0 == k
}

/// The value of the last entry with key `k`, if any.
pub open spec fn lookup(e: Seq<(Seq<char>, Seq<char>)>, k: Seq<char>) -> Option<Seq<char>>
    decreases e.len(),
{
    if e.len() == 0 {
        None
    } else if e.last().0 == k {
        Some(e.last().1)
    } else {
        lookup(e.drop_last(), k)
    }
}

/// With unique keys, the value of key `e[i].0` is `e[i].1`.
pub proof fn lemma_lookup_at(e: Seq<(Seq<char>, Seq<char>)>, i: int)
    requires
        keys_unique(e),
        0 <= i < e.len(),
    ensures
        lookup(e, e[i].0) == Some(e[i].1),
    decreases e.len(),
{
    if i != e.len() - 1 {
        assert(e[i] == e.drop_last()[i]);
        lemma_lookup_at(e.drop_last(), i);
    }
}

/// A key that no entry has is looked up as nothing.
pub proof fn lemma_lookup_absent(e: Seq<(Seq<char>, Seq<char>)>, k: Seq<char>)
    requires
        !has_key(e, k),
    ensures
        lookup(e, k) is None,
    decreases e.len(),
{
    if e.len() > 0 {
        assert(e[e.len() - 1].0 != k);
        assert forall|i: int| 0 <= i < e.drop_last().len() implies e.drop_last()[i].0 != k by {
            assert(e.drop_last()[i] == e[i]);
        }
        lemma_lookup_absent(e.drop_last(), k);
    }
}

/// Two byte strings that neither precedes are equal from position `i` on.
proof fn lemma_bytes_total(a: Seq<u8>, b: Seq<u8>, i: int)
    requires
        0 <= i <= a.len(),
        i <= b.len(),
        !bytes_less_from(a, b, i),
        !bytes_less_from(b, a, i),
    ensures
        a.subrange(i, a.len() as int) == b.subrange(i, b.len() as int),
    decreases a.len() - i,
{
    if i < a.len() && i < b.len() {
        lemma_bytes_total(a, b, i + 1);
        assert(a.subrange(i, a.len() as int) =~= seq![a[i]] + a.subrange(i + 1, a.len() as int));
        assert(b.subrange(i, b.len() as int) =~= seq![b[i]] + b.subrange(i + 1, b.len() as int));
    }
}

/// Of two different keys, one comes before the other.
proof fn lemma_key_total(a: Seq<char>, b: Seq<char>)
    requires
        a != b,
        !key_less(a, b),
    ensures
        key_less(b, a),
{
    if !key_less(b, a) {
        let ea = encode_utf8(a);
        let eb = encode_utf8(b);
        lemma_bytes_total(ea, eb, 0);
        assert(ea =~= ea.subrange(0, ea.len() as int));
        assert(eb =~= eb.subrange(0, eb.len() as int));
        encode_utf8_decode_utf8(a);
        encode_utf8_decode_utf8(b);
    }
}

/// Whether string `a` comes before string `b` in key order.
pub fn str_less(a: &str, b: &str) -> (r: bool)
    ensures
        r == key_less(a@, b@),
{
    let ab = a.as_bytes();
    let bb = b.as_bytes();
    let ghost ea = encode_utf8(a@);
    let ghost eb = encode_utf8(b@);
    let mut i: usize = 0;
    while i < ab.len() && i < bb.len()
        invariant
            ab@ == ea,
            bb@ == eb,
            ea == encode_utf8(a@),
            eb == encode_utf8(b@),
            i <= ab@.len(),
            i <= bb@.len(),
            bytes_less_from(ea, eb, 0) == bytes_less_from(ea, eb, i as int),
        decreases ab@.len() - i,
    {
        if ab[i] != bb[i] {
            assert(bytes_less_from(ea, eb, i as int) == (ea[i as int] < eb[i as int]));
            assert(key_less(a@, b@) == (ab[i as int] < bb[i as int]));
            return ab[i] < bb[i];
        }
        i = i + 1;
    }
    i < bb.len()
}

/// A map from string keys to string values, sorted by key.
pub struct StrMap {
    entries: Vec<(String, String)>,
}

impl View for StrMap {
    type V = Seq<(Seq<char>, Seq<char>)>;

    /// The entries, in order.
    closed spec fn view(&self) -> Seq<(Seq<char>, Seq<char>)> {
        self.entries@.map_values(|p: (String, String)| (p.0@, p.1@))
    }
}

impl StrMap {
    /// Keys are sorted and unique.
    pub open spec fn wf(&self) -> bool {
        keys_sorted(self@) && keys_unique(self@)
    }

    /// The empty map.
    pub fn new() -> (r: StrMap)
        ensures
            r@ == Seq::<(Seq<char>, Seq<char>)>::empty(),
            r.wf(),
    {
        let r = StrMap { entries: Vec::new() };
        assert(r@ =~= Seq::<(Seq<char>, Seq<char>)>::empty());
        r
    }

    /// The number of entries.
    pub fn len(&self) -> (r: usize)
        ensures
            r == self@.len(),
    {
        self.entries.len()
    }

    /// The key of entry `i`.
    pub fn key_at(&self, i: usize) -> (r: &str)
        requires
            i < self@.len(),
        ensures
            r@ == self@[i as int].0,
    {
        self.entries[i].0.as_str()
    }

    /// The value of entry `i`.
    pub fn value_at(&self, i: usize) -> (r: &str)
        requires
            i < self@.len(),
        ensures
            r@ == self@[i as int].1,
    {
        self.entries[i].1.as_str()
    }

    /// Replaces the value of entry `i`, keeping its key.
    pub fn set_value_at(&mut self, i: usize, v: String)
        requires
            i < old(self)@.len(),
        ensures
            final(self)@ == old(self)@.update(i as int, (old(self)@[i as int].0, v@)),
    {
        let k = self.entries[i].0.clone();
        self.entries.set(i, (k, v));
        assert(final(self)@ =~= old(self)@.update(i as int, (old(self)@[i as int].0, v@)));
    }

    /// The value stored under key `k`.
    pub fn get(&self, k: &str) -> (r: Option<&str>)
        ensures
            match r {
                Some(v) => lookup(self@, k@) == Some(v@),
                None => lookup(self@, k@) is None,
            },
    {
        let ks = k.to_owned();
        let mut i: usize = self.entries.len();
        assert(self@.take(i as int) =~= self@);
        while i > 0
            invariant
                i <= self@.len(),
                ks@ == k@,
                lookup(self@, k@) == lookup(self@.take(i as int), k@),
            decreases i,
        {
            let ghost t = self@.take(i as int);
            assert(t.drop_last() =~= self@.take(i - 1));
            assert(t.last() == (self.entries@[i - 1].0@, self.entries@[i - 1].1@));
            if self.entries[i - 1].0 == ks {
                assert(lookup(t, k@) == Some(t.last().1));
                return Some(self.entries[i - 1].1.as_str());
            }
            i = i - 1;
        }
        None
    }

    /// Sets key `k` to value `v`, keeping the keys sorted.
    pub fn insert(&mut self, k: String, v: String)
        requires
            old(self).wf(),
        ensures
            final(self).wf(),
            inserted(old(self)@, final(self)@, k@, v@),
    {
        let ghost e = self@;
        let n = self.entries.len();
        let mut i: usize = 0;
        while i < n
            invariant
                n == e.len(),
                self@ == e,
                e == old(self)@,
                keys_sorted(e),
                keys_unique(e),
                i <= n,
                forall|j: int| 0 <= j < i ==> (#[trigger] e[j]).0 != k@,
            decreases n - i,
        {
            if self.entries[i].0 == k {
                self.entries.set(i, (k, v));
                proof {
                    assert(self@ =~= e.update(i as int, (k@, v@)));
                    lemma_replace(e, i as int, k@, v@);
                }
                return;
            }
            assert(self.entries@[i as int].0@ == e[i as int].0);
            i = i + 1;
        }
        let mut p: usize = 0;
        while p < n && str_less(self.entries[p].0.as_str(), k.as_str())
            invariant
                n == e.len(),
                self@ == e,
                e == old(self)@,
                keys_sorted(e),
                keys_unique(e),
                forall|j: int| 0 <= j < n ==> (#[trigger] e[j]).0 != k@,
                p <= n,
                forall|j: int| 0 <= j < p ==> key_less(#[trigger] e[j].0, k@),
            decreases n - p,
        {
            assert(self.entries@[p as int].0@ == e[p as int].0);
            p = p + 1;
        }
        proof {
            if p < n {
                assert(self.entries@[p as int].0@ == e[p as int].0);
                assert(e[p as int].0 != k@);
                lemma_key_total(e[p as int].0, k@);
            }
        }
        self.entries.insert(p, (k, v));
        proof {
            assert(self@ =~= e.insert(p as int, (k@, v@)));
            lemma_insert_at(e, p as int, k@, v@);
        }
    }
}

/// `f` is `e` with key `k` set to `v`: the keys are those of `e` and `k`,
/// `k` has value `v`, every other key keeps its value, and each entry is
/// either the new one or one of `e`.
pub open spec fn inserted(
    e: Seq<(Seq<char>, Seq<char>)>,
    f: Seq<(Seq<char>, Seq<char>)>,
    k: Seq<char>,
    v: Seq<char>,
) -> bool {
    &&& forall|q: Seq<char>| #[trigger] has_key(f, q) <==> (has_key(e, q) || q == k)
    &&& forall|q: Seq<char>| #[trigger]
        lookup(f, q) == if q == k {
            Some(v)
        } else {
            lookup(e, q)
        }
    &&& forall|i: int|
        0 <= i < f.len() ==> if (#[trigger] f[i]).0 == k {
            f[i].1 == v
        } else {
            e.contains(f[i])
        }
}

proof fn lemma_replace(e: Seq<(Seq<char>, Seq<char>)>, i: int, k: Seq<char>, v: Seq<char>)
    requires
        keys_sorted(e),
        keys_unique(e),
        0 <= i < e.len(),
        e[i].0 == k,
    ensures
        keys_sorted(e.update(i, (k, v))),
        keys_unique(e.update(i, (k, v))),
        inserted(e, e.update(i, (k, v)), k, v),
{
    let f = e.update(i, (k, v));
    assert forall|a: int, b: int| 0 <= a < b < f.len() implies (#[trigger] f[a]).0 != (
    #[trigger] f[b]).0 by {
        assert(e[a].0 != e[b].0);
    }
    assert forall|a: int| 0 <= a < f.len() - 1 implies key_less(#[trigger] f[a].0, f[a + 1].0) by {
        assert(key_less(e[a].0, e[a + 1].0));
    }
    assert forall|q: Seq<char>| #[trigger] has_key(f, q) <==> (has_key(e, q) || q == k) by {
        if has_key(e, q) {
            let a = choose|a: int| 0 <= a < e.len() && (#[trigger] e[a]).0 == q;
            assert(f[a].0 == q);
        }
        if q == k {
            assert(f[i].0 == q);
        }
        if has_key(f, q) {
            let a = choose|a: int| 0 <= a < f.len() && (#[trigger] f[a]).0 == q;
            assert(e[a].0 == q);
        }
    }
    assert forall|q: Seq<char>| #[trigger]
        lookup(f, q) == if q == k {
            Some(v)
        } else {
            lookup(e, q)
        } by {
        if q == k {
            lemma_lookup_at(f, i);
        } else if has_key(e, q) {
            let a = choose|a: int| 0 <= a < e.len() && (#[trigger] e[a]).0 == q;
            lemma_lookup_at(e, a);
            lemma_lookup_at(f, a);
        } else {
            lemma_lookup_absent(e, q);
            lemma_lookup_absent(f, q);
        }
    }
    assert forall|a: int| 0 <= a < f.len() implies if (#[trigger] f[a]).0 == k {
        f[a].1 == v
    } else {
        e.contains(f[a])
    } by {
        if a != i {
            assert(e[a] == f[a]);
        }
    }
}

#[verifier::rlimit(60)]
proof fn lemma_insert_at(e: Seq<(Seq<char>, Seq<char>)>, p: int, k: Seq<char>, v: Seq<char>)
    requires
        keys_sorted(e),
        keys_unique(e),
        0 <= p <= e.len(),
        forall|j: int| 0 <= j < e.len() ==> (#[trigger] e[j]).0 != k,
        forall|j: int| 0 <= j < p ==> key_less(#[trigger] e[j].0, k),
        p < e.len() ==> key_less(k, e[p].0),
    ensures
        keys_sorted(e.insert(p, (k, v))),
        keys_unique(e.insert(p, (k, v))),
        inserted(e, e.insert(p, (k, v)), k, v),
{
    let f = e.insert(p, (k, v));
    assert forall|a: int, b: int| 0 <= a < b < f.len() implies (#[trigger] f[a]).0 != (
    #[trigger] f[b]).0 by {
        if a < p && b < p {
            assert(e[a].0 != e[b].0);
        } else if a < p && b > p {
            assert(e[a].0 != e[b - 1].0);
        } else if a > p {
            assert(e[a - 1].0 != e[b - 1].0);
        } else if a == p {
            assert(e[b - 1].0 != k);
        } else {
            assert(e[a].0 != k);
        }
    }
    assert forall|a: int| 0 <= a < f.len() - 1 implies key_less(#[trigger] f[a].0, f[a + 1].0) by {
        if a + 1 < p {
            assert(key_less(e[a].0, e[a + 1].0));
        } else if a > p {
            assert(key_less(e[a - 1].0, e[a].0));
        } else if a + 1 == p {
            assert(key_less(e[a].0, k));
        }
    }
    assert forall|q: Seq<char>| #[trigger] has_key(f, q) <==> (has_key(e, q) || q == k) by {
        if has_key(e, q) {
            let a = choose|a: int| 0 <= a < e.len() && (#[trigger] e[a]).0 == q;
            if a < p {
                assert(f[a].0 == q);
            } else {
                assert(f[a + 1].0 == q);
            }
        }
        if q == k {
            assert(f[p].0 == q);
        }
        if has_key(f, q) {
            let a = choose|a: int| 0 <= a < f.len() && (#[trigger] f[a]).0 == q;
            if a < p {
                assert(e[a].0 == q);
            } else if a > p {
                assert(e[a - 1].0 == q);
            }
        }
    }
    assert(keys_unique(f));
    assert forall|q: Seq<char>| #[trigger]
        lookup(f, q) == if q == k {
            Some(v)
        } else {
            lookup(e, q)
        } by {
        if q == k {
            lemma_lookup_at(f, p);
        } else if has_key(e, q) {
            let a = choose|a: int| 0 <= a < e.len() && (#[trigger] e[a]).0 == q;
            lemma_lookup_at(e, a);
            if a < p {
                lemma_lookup_at(f, a);
            } else {
                lemma_lookup_at(f, a + 1);
            }
        } else {
            lemma_lookup_absent(e, q);
            assert(!has_key(f, q));
            lemma_lookup_absent(f, q);
        }
    }
    assert forall|a: int| 0 <= a < f.len() implies if (#[trigger] f[a]).0 == k {
        f[a].1 == v
    } else {
        e.contains(f[a])
    } by {
        if a < p {
            assert(e[a] == f[a]);
        } else if a > p {
            assert(e[a - 1] == f[a]);
        }
    }
}

} // verus!
