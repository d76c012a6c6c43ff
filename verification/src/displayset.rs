//! Complete display sets and the entities they own.
//!
//! A display set is one atomic composition update: a run of segments that
//! always begins with a PCS and always ends with an ES. Its resources —
//! windows, palettes, objects — are held in mappings whose keys are unique
//! and whose iteration order is ascending, so that encoding a display set is
//! reproducible byte for byte.

use vstd::prelude::*;
use crate::segment::{CompositionState, Crop};

verus! {

/// A key of a [`SortedMap`]: ordered by an injective integer image.
pub trait MapKey: Sized {
    /// The integer that orders the keys.
    spec fn key(self) -> int;

    /// Two keys with one integer image are one key.
    proof fn lemma_key_injective(a: Self, b: Self)
        requires
            a.key() == b.key(),
        ensures
            a == b,
    ;

    /// Compares two keys by their integer image.
    fn key_lt(&self, other: &Self) -> (r: bool)
        ensures
            r <==> self.key() < other.key(),
    ;

    /// Whether two keys are the same key.
    fn key_eq(&self, other: &Self) -> (r: bool)
        ensures
            r <==> self.key() == other.key(),
    ;
}

/// A mapping held as a vector of pairs in strictly ascending key order.
///
/// Keys are unique, lookup is by key, and iteration order is ascending —
/// the properties the display-set model asks of its mappings.
#[derive(Clone, Debug, Hash, PartialEq)]
pub struct SortedMap<K, V> {
    entries: Vec<(K, V)>,
}

impl<K, V> View for SortedMap<K, V> {
    type V = Seq<(K, V)>;

    closed spec fn view(&self) -> Seq<(K, V)> {
        self.entries@
    }
}

/// Whether a pair sequence is in strictly ascending key order.
pub open spec fn spec_sorted<K: MapKey, V>(s: Seq<(K, V)>) -> bool {
    forall|i: int, j: int| 0 <= i < j < s.len() ==> s[i].0.key() < s[j].0.key()
}

/// Whether a pair sequence holds a key.
pub open spec fn spec_has_key<K: MapKey, V>(s: Seq<(K, V)>, k: K) -> bool {
    exists|i: int| 0 <= i < s.len() && s[i].0.key() == k.key()
}

/// A pair sequence with `(k, v)` put in: replacing the entry whose key it
/// is, or inserted at its ascending position.
pub open spec fn spec_put<K: MapKey, V>(s: Seq<(K, V)>, k: K, v: V) -> Seq<(K, V)>
    decreases s.len(),
{
    if s.len() == 0 {
        seq![(k, v)]
    } else if k.key() < s[0].0.key() {
        seq![(k, v)] + s
    } else if k.key() == s[0].0.key() {
        seq![(k, v)] + s.skip(1)
    } else {
        seq![s[0]] + spec_put(s.skip(1), k, v)
    }
}

/// Putting a pair keeps the order strict and adjusts exactly the keys.
pub proof fn lemma_put_sorted<K: MapKey, V>(s: Seq<(K, V)>, k: K, v: V)
    requires
        spec_sorted(s),
    ensures
        spec_sorted(spec_put(s, k, v)),
        spec_has_key(spec_put(s, k, v), k),
        forall|k2: K|
            #[trigger] spec_has_key(spec_put(s, k, v), k2) <==> spec_has_key(s, k2) || k2.key()
                == k.key(),
        spec_has_key(s, k) ==> spec_put(s, k, v).len() == s.len(),
        !spec_has_key(s, k) ==> spec_put(s, k, v).len() == s.len() + 1,
    decreases s.len(),
{
    if s.len() == 0 {
        let t = spec_put(s, k, v);
        assert(t[0].0.key() == k.key());
        assert(spec_has_key(t, k));
        assert forall|k2: K| #[trigger]
            spec_has_key(t, k2) <==> spec_has_key(s, k2) || k2.key() == k.key() by {
            if spec_has_key(t, k2) {
                let i = choose|i: int| 0 <= i < t.len() && t[i].0.key() == k2.key();
                assert(i == 0);
            }
            if k2.key() == k.key() {
                assert(t[0].0.key() == k2.key());
            }
        }
    } else if k.key() < s[0].0.key() {
        let t = seq![(k, v)] + s;
        assert forall|i: int, j: int| 0 <= i < j < t.len() implies t[i].0.key() < t[j].0.key() by {
            if i > 0 {
                assert(t[i] == s[i - 1]);
                assert(t[j] == s[j - 1]);
            } else {
                assert(t[j] == s[j - 1]);
                assert(s[0].0.key() <= s[j - 1].0.key());
            }
        }
        assert forall|k2: K| #[trigger]
            spec_has_key(t, k2) <==> spec_has_key(s, k2) || k2.key() == k.key() by {
            if spec_has_key(t, k2) {
                let i = choose|i: int| 0 <= i < t.len() && t[i].0.key() == k2.key();
                if i > 0 {
                    assert(t[i] == s[i - 1]);
                    assert(spec_has_key(s, k2));
                }
            }
            if spec_has_key(s, k2) {
                let i = choose|i: int| 0 <= i < s.len() && s[i].0.key() == k2.key();
                assert(t[i + 1] == s[i]);
                assert(spec_has_key(t, k2));
            }
            if k2.key() == k.key() {
                assert(t[0].0.key() == k2.key());
            }
        }
    } else if k.key() == s[0].0.key() {
        let t = seq![(k, v)] + s.skip(1);
        assert forall|i: int, j: int| 0 <= i < j < t.len() implies t[i].0.key() < t[j].0.key() by {
            if i > 0 {
                assert(t[i] == s[i]);
                assert(t[j] == s[j]);
            } else {
                assert(t[j] == s[j]);
            }
        }
        assert forall|k2: K| #[trigger]
            spec_has_key(t, k2) <==> spec_has_key(s, k2) || k2.key() == k.key() by {
            if spec_has_key(t, k2) {
                let i = choose|i: int| 0 <= i < t.len() && t[i].0.key() == k2.key();
                if i > 0 {
                    assert(t[i] == s[i]);
                    assert(spec_has_key(s, k2));
                } else {
                    assert(s[0].0.key() == k2.key());
                    assert(spec_has_key(s, k2));
                }
            }
            if spec_has_key(s, k2) {
                let i = choose|i: int| 0 <= i < s.len() && s[i].0.key() == k2.key();
                if i == 0 {
                    assert(t[0].0.key() == k2.key());
                } else {
                    assert(t[i] == s[i]);
                }
                assert(spec_has_key(t, k2));
            }
            if k2.key() == k.key() {
                assert(t[0].0.key() == k2.key());
            }
        }
    } else {
        lemma_put_sorted(s.skip(1), k, v);
        let u = spec_put(s.skip(1), k, v);
        let t = seq![s[0]] + u;
        assert forall|i: int, j: int| 0 <= i < j < t.len() implies t[i].0.key() < t[j].0.key() by {
            if i > 0 {
                assert(t[i] == u[i - 1]);
                assert(t[j] == u[j - 1]);
            } else {
                assert(t[j] == u[j - 1]);
                assert(spec_has_key(u, u[j - 1].0));
                if u[j - 1].0.key() != k.key() {
                    assert(spec_has_key(s.skip(1), u[j - 1].0));
                    let l = choose|l: int|
                        0 <= l < s.skip(1).len() && s.skip(1)[l].0.key() == u[j - 1].0.key();
                    assert(s.skip(1)[l] == s[l + 1]);
                    assert(s[0].0.key() < s[l + 1].0.key());
                }
            }
        }
        assert forall|k2: K| #[trigger]
            spec_has_key(t, k2) <==> spec_has_key(s, k2) || k2.key() == k.key() by {
            if spec_has_key(t, k2) {
                let i = choose|i: int| 0 <= i < t.len() && t[i].0.key() == k2.key();
                if i == 0 {
                    assert(s[0].0.key() == k2.key());
                    assert(spec_has_key(s, k2));
                } else {
                    assert(t[i] == u[i - 1]);
                    assert(spec_has_key(u, u[i - 1].0));
                    if u[i - 1].0.key() != k.key() {
                        assert(spec_has_key(s.skip(1), u[i - 1].0));
                        let l = choose|l: int|
                            0 <= l < s.skip(1).len() && s.skip(1)[l].0.key() == u[i - 1].0.key();
                        assert(s.skip(1)[l] == s[l + 1]);
                        assert(spec_has_key(s, k2));
                    }
                }
            }
            if spec_has_key(s, k2) {
                let i = choose|i: int| 0 <= i < s.len() && s[i].0.key() == k2.key();
                if i == 0 {
                    assert(t[0].0.key() == k2.key());
                } else {
                    assert(s.skip(1)[i - 1] == s[i]);
                    assert(spec_has_key(s.skip(1), k2));
                    assert(spec_has_key(u, k2));
                    let l = choose|l: int| 0 <= l < u.len() && u[l].0.key() == k2.key();
                    assert(t[l + 1] == u[l]);
                    assert(t[l + 1].0.key() == k2.key());
                }
                assert(spec_has_key(t, k2));
            }
            if k2.key() == k.key() {
                assert(spec_has_key(u, k));
                let l = choose|l: int| 0 <= l < u.len() && u[l].0.key() == k.key();
                assert(t[l + 1] == u[l]);
                assert(t[l + 1].0.key() == k2.key());
                assert(spec_has_key(t, k2));
            }
        }
        if spec_has_key(s, k) {
            let i = choose|i: int| 0 <= i < s.len() && s[i].0.key() == k.key();
            assert(i != 0);
            assert(s.skip(1)[i - 1] == s[i]);
            assert(spec_has_key(s.skip(1), k));
        }
        if spec_has_key(s.skip(1), k) {
            let i = choose|i: int| 0 <= i < s.skip(1).len() && s.skip(1)[i].0.key() == k.key();
            assert(s.skip(1)[i] == s[i + 1]);
            assert(spec_has_key(s, k));
        }
    }
}

/// Every entry of a put is the new pair or an entry already present.
pub proof fn lemma_put_values<K: MapKey, V>(s: Seq<(K, V)>, k: K, v: V)
    ensures
        forall|i: int|
            0 <= i < spec_put(s, k, v).len() ==> spec_put(s, k, v)[i] == (k, v) || s.contains(
                #[trigger] spec_put(s, k, v)[i],
            ),
    decreases s.len(),
{
    let t = spec_put(s, k, v);
    if s.len() == 0 {
        assert forall|i: int| 0 <= i < t.len() implies t[i] == (k, v) || s.contains(#[trigger] t[i]) by {
            assert(t[i] == (k, v));
        }
    } else if k.key() < s[0].0.key() {
        assert forall|i: int| 0 <= i < t.len() implies t[i] == (k, v) || s.contains(#[trigger] t[i]) by {
            if i > 0 {
                assert(s[i - 1] == t[i]);
                assert(s.contains(t[i]));
            }
        }
    } else if k.key() == s[0].0.key() {
        assert forall|i: int| 0 <= i < t.len() implies t[i] == (k, v) || s.contains(#[trigger] t[i]) by {
            if i > 0 {
                assert(s.skip(1)[i - 1] == s[i]);
                assert(s[i] == t[i]);
                assert(s.contains(t[i]));
            }
        }
    } else {
        lemma_put_values(s.skip(1), k, v);
        let u = spec_put(s.skip(1), k, v);
        assert forall|i: int| 0 <= i < t.len() implies t[i] == (k, v) || s.contains(#[trigger] t[i]) by {
            if i == 0 {
                assert(t[0] == s[0]);
                assert(s.contains(s[0]));
            } else {
                assert(t[i] == u[i - 1]);
                if u[i - 1] != (k, v) {
                    assert(s.skip(1).contains(u[i - 1]));
                    let j = choose|j: int| 0 <= j < s.skip(1).len() && s.skip(1)[j] == u[i - 1];
                    assert(s[j + 1] == u[i - 1]);
                    assert(s.contains(t[i]));
                }
            }
        }
    }
}

/// Putting a key greater than every key present appends the pair.
pub proof fn lemma_put_append<K: MapKey, V>(s: Seq<(K, V)>, k: K, v: V)
    requires
        forall|i: int| 0 <= i < s.len() ==> (#[trigger] s[i]).0.key() < k.key(),
    ensures
        spec_put(s, k, v) == s.push((k, v)),
    decreases s.len(),
{
    if s.len() == 0 {
        assert(seq![(k, v)] =~= s.push((k, v)));
    } else {
        assert forall|i: int| 0 <= i < s.skip(1).len() implies (#[trigger] s.skip(1)[i]).0.key()
            < k.key() by {
            assert(s.skip(1)[i] == s[i + 1]);
        }
        lemma_put_append(s.skip(1), k, v);
        assert(seq![s[0]] + s.skip(1).push((k, v)) =~= s.push((k, v)));
    }
}

impl<K: MapKey, V> SortedMap<K, V> {
    /// The entries are in strictly ascending key order.
    pub open spec fn wf(self) -> bool {
        spec_sorted(self@)
    }

    /// An empty mapping.
    pub fn new() -> (r: Self)
        ensures
            r@ == Seq::<(K, V)>::empty(),
            r.wf(),
    {
        SortedMap { entries: Vec::new() }
    }

    /// How many entries the mapping holds.
    pub fn len(&self) -> (n: usize)
        ensures
            n == self@.len(),
    {
        self.entries.len()
    }

    pub fn is_empty(&self) -> (r: bool)
        ensures
            r <==> self@.len() == 0,
    {
        self.entries.len() == 0
    }

    /// The entry at an iteration position.
    pub fn entry_at(&self, i: usize) -> (r: &(K, V))
        requires
            i < self@.len(),
        ensures
            *r == self@[i as int],
    {
        &self.entries[i]
    }

    /// Whether the mapping holds a key.
    pub fn contains_key(&self, k: &K) -> (r: bool)
        ensures
            r <==> spec_has_key(self@, *k),
    {
        let mut i: usize = 0;
        while i < self.entries.len()
            invariant
                i <= self@.len(),
                forall|j: int| 0 <= j < i ==> self@[j].0.key() != k.key(),
            decreases self@.len() - i,
        {
            if self.entries[i].0.key_eq(k) {
                return true;
            }
            i = i + 1;
        }
        false
    }

    /// The value held for a key, if any.
    pub fn get(&self, k: &K) -> (r: Option<&V>)
        ensures
            match r {
                Some(v) => exists|i: int|
                    0 <= i < self@.len() && self@[i].0.key() == k.key() && *v == self@[i].1,
                None => !spec_has_key(self@, *k),
            },
    {
        let mut i: usize = 0;
        while i < self.entries.len()
            invariant
                i <= self@.len(),
                forall|j: int| 0 <= j < i ==> self@[j].0.key() != k.key(),
            decreases self@.len() - i,
        {
            if self.entries[i].0.key_eq(k) {
                return Some(&self.entries[i].1);
            }
            i = i + 1;
        }
        None
    }

    /// Puts a pair in: an entry with the same key is replaced, a new key is
    /// inserted at its ascending position.
    pub fn insert(&mut self, k: K, v: V)
        requires
            old(self).wf(),
        ensures
            final(self).wf(),
            final(self)@ == spec_put(old(self)@, k, v),
    {
        let ghost s = self@;
        proof {
            lemma_put_sorted(s, k, v);
            assert(s.take(0) =~= Seq::<(K, V)>::empty());
            assert(s.skip(0) =~= s);
            assert(Seq::<(K, V)>::empty() + spec_put(s, k, v) =~= spec_put(s, k, v));
        }
        let mut i: usize = 0;
        while i < self.entries.len()
            invariant
                self@ == s,
                self.wf(),
                i <= s.len(),
                forall|j: int| 0 <= j < i ==> s[j].0.key() < k.key(),
                spec_put(s, k, v) == s.take(i as int) + spec_put(s.skip(i as int), k, v),
            ensures
                i <= s.len(),
                forall|j: int| 0 <= j < i ==> s[j].0.key() < k.key(),
                spec_put(s, k, v) == s.take(i as int) + spec_put(s.skip(i as int), k, v),
                i == s.len() || s[i as int].0.key() >= k.key(),
            decreases s.len() - i,
        {
            let ghost i0 = i as int;
            if !self.entries[i].0.key_lt(&k) {
                break ;
            }
            proof {
                assert(s.skip(i0)[0] == s[i0]);
                assert(s.skip(i0).skip(1) =~= s.skip(i0 + 1));
                assert(seq![s[i0]] + spec_put(s.skip(i0 + 1), k, v) == spec_put(s.skip(i0), k, v));
                assert(s.take(i0 + 1) =~= s.take(i0) + seq![s[i0]]);
                assert(s.take(i0) + (seq![s[i0]] + spec_put(s.skip(i0 + 1), k, v)) =~= s.take(
                    i0 + 1,
                ) + spec_put(s.skip(i0 + 1), k, v));
            }
            i = i + 1;
        }
        let ghost i0 = i as int;
        if i < self.entries.len() && self.entries[i].0.key_eq(&k) {
            self.entries.remove(i);
            self.entries.insert(i, (k, v));
            proof {
                assert(s.skip(i0)[0] == s[i0]);
                assert(s.skip(i0).skip(1) =~= s.skip(i0 + 1));
                assert(spec_put(s.skip(i0), k, v) == seq![(k, v)] + s.skip(i0 + 1));
                assert(self@ =~= s.take(i0) + (seq![(k, v)] + s.skip(i0 + 1)));
            }
        } else {
            self.entries.insert(i, (k, v));
            proof {
                if i0 < s.len() {
                    assert(s.skip(i0)[0] == s[i0]);
                    assert(spec_put(s.skip(i0), k, v) == seq![(k, v)] + s.skip(i0));
                } else {
                    assert(s.skip(i0) =~= Seq::<(K, V)>::empty());
                    assert(spec_put(s.skip(i0), k, v) == seq![(k, v)]);
                    assert(seq![(k, v)] =~= seq![(k, v)] + s.skip(i0));
                }
                assert(self@ =~= s.take(i0) + (seq![(k, v)] + s.skip(i0)));
            }
        }
    }
}

/// A versioned identifier: the key shape for palettes and objects.
/// Ordering is lexicographic on (id, version).
#[derive(Clone, Copy, Debug, Default, Eq, Hash, Ord, PartialEq, PartialOrd)]
pub struct Vid<T> {
    /// The ID.
    pub id: T,
    /// The version increment.
    pub version: u8,
}

/// A compound identifier, combining an object and a window identifier: the
/// key shape for composition objects.
#[derive(Clone, Copy, Debug, Default, Eq, Hash, Ord, PartialEq, PartialOrd)]
pub struct Cid {
    /// The object ID.
    pub object_id: u16,
    /// The window ID.
    pub window_id: u8,
}

impl MapKey for u8 {
    open spec fn key(self) -> int {
        self as int
    }

    proof fn lemma_key_injective(a: Self, b: Self) {
    }

    fn key_lt(&self, other: &Self) -> (r: bool) {
        *self < *other
    }

    fn key_eq(&self, other: &Self) -> (r: bool) {
        *self == *other
    }
}

impl MapKey for Vid<u8> {
    open spec fn key(self) -> int {
        self.id * 0x100 + self.version
    }

    proof fn lemma_key_injective(a: Self, b: Self) {
        assert(a.id == b.id && a.version == b.version) by (nonlinear_arith)
            requires
                a.id * 0x100 + a.version == b.id * 0x100 + b.version,
                a.version < 0x100,
                b.version < 0x100,
                0 <= a.id,
                0 <= b.id,
        ;
    }

    fn key_lt(&self, other: &Self) -> (r: bool) {
        proof {
            assert((self.id * 0x100 + self.version < other.id * 0x100 + other.version) <==> (
            self.id < other.id || (self.id == other.id && self.version < other.version)))
                by (nonlinear_arith)
                requires
                    self.version < 0x100,
                    other.version < 0x100,
                    0 <= self.id,
                    0 <= other.id,
            ;
        }
        self.id < other.id || (self.id == other.id && self.version < other.version)
    }

    fn key_eq(&self, other: &Self) -> (r: bool) {
        proof {
            if self.key() == other.key() {
                Self::lemma_key_injective(*self, *other);
            }
        }
        self.id == other.id && self.version == other.version
    }
}

impl MapKey for Vid<u16> {
    open spec fn key(self) -> int {
        self.id * 0x100 + self.version
    }

    proof fn lemma_key_injective(a: Self, b: Self) {
        assert(a.id == b.id && a.version == b.version) by (nonlinear_arith)
            requires
                a.id * 0x100 + a.version == b.id * 0x100 + b.version,
                a.version < 0x100,
                b.version < 0x100,
                0 <= a.id,
                0 <= b.id,
        ;
    }

    fn key_lt(&self, other: &Self) -> (r: bool) {
        proof {
            assert((self.id * 0x100 + self.version < other.id * 0x100 + other.version) <==> (
            self.id < other.id || (self.id == other.id && self.version < other.version)))
                by (nonlinear_arith)
                requires
                    self.version < 0x100,
                    other.version < 0x100,
                    0 <= self.id,
                    0 <= other.id,
            ;
        }
        self.id < other.id || (self.id == other.id && self.version < other.version)
    }

    fn key_eq(&self, other: &Self) -> (r: bool) {
        proof {
            if self.key() == other.key() {
                Self::lemma_key_injective(*self, *other);
            }
        }
        self.id == other.id && self.version == other.version
    }
}

impl MapKey for Cid {
    open spec fn key(self) -> int {
        self.object_id * 0x100 + self.window_id
    }

    proof fn lemma_key_injective(a: Self, b: Self) {
        assert(a.object_id == b.object_id && a.window_id == b.window_id) by (nonlinear_arith)
            requires
                a.object_id * 0x100 + a.window_id == b.object_id * 0x100 + b.window_id,
                a.window_id < 0x100,
                b.window_id < 0x100,
                0 <= a.object_id,
                0 <= b.object_id,
        ;
    }

    fn key_lt(&self, other: &Self) -> (r: bool) {
        proof {
            assert((self.object_id * 0x100 + self.window_id < other.object_id * 0x100
                + other.window_id) <==> (self.object_id < other.object_id || (self.object_id
                == other.object_id && self.window_id < other.window_id))) by (nonlinear_arith)
                requires
                    self.window_id < 0x100,
                    other.window_id < 0x100,
                    0 <= self.object_id,
                    0 <= other.object_id,
            ;
        }
        self.object_id < other.object_id || (self.object_id == other.object_id && self.window_id
            < other.window_id)
    }

    fn key_eq(&self, other: &Self) -> (r: bool) {
        proof {
            if self.key() == other.key() {
                Self::lemma_key_injective(*self, *other);
            }
        }
        self.object_id == other.object_id && self.window_id == other.window_id
    }
}

/// A complete display set within an epoch.
#[derive(Clone, Debug, Hash, PartialEq)]
pub struct DisplaySet {
    /// The 90 kHz timestamp at which composition decoding should start.
    pub pts: u32,
    /// The 90 kHz timestamp at which the composition should be displayed.
    pub dts: u32,
    /// The width of the screen in pixels.
    pub width: u16,
    /// The height of the screen in pixels.
    pub height: u16,
    /// Should be `0x10`; carried verbatim and never interpreted.
    pub frame_rate: u8,
    /// If set, the ID of a preceding palette to be updated within the
    /// epoch. At least one palette with that ID must be present.
    pub palette_update_id: Option<u8>,
    /// The windows referenced by this display set, by ID.
    pub windows: SortedMap<u8, Window>,
    /// The palettes referenced by this display set, by (ID, version).
    pub palettes: SortedMap<Vid<u8>, Palette>,
    /// The objects referenced by this display set, by (ID, version).
    pub objects: SortedMap<Vid<u16>, Object>,
    /// The composition of objects into windows.
    pub composition: Composition,
}

/// A composition of objects into windows.
#[derive(Clone, Debug, Hash, PartialEq)]
pub struct Composition {
    /// Increments each time graphics are updated within an epoch.
    pub number: u16,
    /// The role of this display set within the larger epoch.
    pub state: CompositionState,
    /// The composition objects, each mapped by its compound ID.
    pub objects: SortedMap<Cid, CompositionObject>,
}

/// The placement of an object (or a region of one) within a window.
#[derive(Clone, Debug, Default, Hash, PartialEq)]
pub struct CompositionObject {
    /// The horizontal offset of the object's visible top-left corner on the
    /// screen.
    pub x: u16,
    /// The vertical offset of the object's visible top-left corner on the
    /// screen.
    pub y: u16,
    /// Forces display regardless of the user's subtitle preference.
    pub forced: bool,
    /// If set, only this area of the object is shown.
    pub crop: Option<Crop>,
}

/// A window region within the screen.
#[derive(Clone, Debug, Default, Hash, PartialEq)]
pub struct Window {
    /// The horizontal offset of the window's top-left corner on the screen.
    pub x: u16,
    /// The vertical offset of the window's top-left corner on the screen.
    pub y: u16,
    /// The width of the window.
    pub width: u16,
    /// The height of the window.
    pub height: u16,
}

/// A palette within a display set.
#[derive(Clone, Debug, Hash, PartialEq)]
pub struct Palette {
    /// The entries within this palette, each mapped by its ID.
    pub entries: SortedMap<u8, PaletteEntry>,
}

/// One palette entry: an exact pixel color.
#[derive(Clone, Copy, Debug, Default, Hash, PartialEq)]
pub struct PaletteEntry {
    /// The range-limited, gamma-corrected luminosity value of this entry.
    pub y: u8,
    /// The vertical position of this entry on the YCbCr color plane.
    pub cr: u8,
    /// The horizontal position of this entry on the YCbCr color plane.
    pub cb: u8,
    /// The alpha (transparency ratio) of this entry.
    pub alpha: u8,
}

/// A bitmap: its declared dimensions and its decoded scan lines of palette
/// indices.
#[derive(Clone, Debug, Default, Hash, PartialEq)]
pub struct Object {
    /// The declared width of this object.
    pub width: u16,
    /// The declared height of this object.
    pub height: u16,
    /// The decoded scan lines, each a row of palette indices.
    pub lines: Vec<Vec<u8>>,
}

/// The scan lines of an object as sequences.
/// Whether decoded scan lines fill declared dimensions: the line count
/// must equal the height and each line's length the width.
pub open spec fn spec_object_dims_ok(width: u16, height: u16, lines: Seq<Seq<u8>>) -> bool {
    lines.len() == height && forall|i: int|
        0 <= i < lines.len() ==> (#[trigger] lines[i]).len() == width
}

pub open spec fn spec_lines_view(lines: Seq<Vec<u8>>) -> Seq<Seq<u8>> {
    lines.map_values(|l: Vec<u8>| l@)
}

/// The mathematical model of an object.
pub struct ObjectView {
    pub width: u16,
    pub height: u16,
    pub lines: Seq<Seq<u8>>,
}

impl View for Object {
    type V = ObjectView;

    open spec fn view(&self) -> ObjectView {
        ObjectView { width: self.width, height: self.height, lines: spec_lines_view(self.lines@) }
    }
}

/// The mathematical model of a palette.
pub struct PaletteView {
    pub entries: Seq<(u8, PaletteEntry)>,
}

impl View for Palette {
    type V = PaletteView;

    open spec fn view(&self) -> PaletteView {
        PaletteView { entries: self.entries@ }
    }
}

/// The mathematical model of a composition.
pub struct CompositionView {
    pub number: u16,
    pub state: CompositionState,
    pub objects: Seq<(Cid, CompositionObject)>,
}

impl View for Composition {
    type V = CompositionView;

    open spec fn view(&self) -> CompositionView {
        CompositionView { number: self.number, state: self.state, objects: self.objects@ }
    }
}

/// The mathematical model of a display set: every mapping as its ascending
/// pair sequence.
pub struct DisplaySetView {
    pub pts: u32,
    pub dts: u32,
    pub width: u16,
    pub height: u16,
    pub frame_rate: u8,
    pub palette_update_id: Option<u8>,
    pub windows: Seq<(u8, Window)>,
    pub palettes: Seq<(Vid<u8>, PaletteView)>,
    pub objects: Seq<(Vid<u16>, ObjectView)>,
    pub composition: CompositionView,
}

impl View for DisplaySet {
    type V = DisplaySetView;

    open spec fn view(&self) -> DisplaySetView {
        DisplaySetView {
            pts: self.pts,
            dts: self.dts,
            width: self.width,
            height: self.height,
            frame_rate: self.frame_rate,
            palette_update_id: self.palette_update_id,
            windows: self.windows@,
            palettes: self.palettes@.map_values(|p: (Vid<u8>, Palette)| (p.0, p.1@)),
            objects: self.objects@.map_values(|p: (Vid<u16>, Object)| (p.0, p.1@)),
            composition: self.composition@,
        }
    }
}

impl DisplaySet {
    /// The mappings of a display set are in strictly ascending key order,
    /// the palettes' entry mappings included.
    pub open spec fn wf(self) -> bool {
        &&& spec_sorted(self.windows@)
        &&& spec_sorted(self.palettes@)
        &&& spec_sorted(self.objects@)
        &&& spec_sorted(self.composition.objects@)
        &&& forall|i: int|
            0 <= i < self.palettes@.len() ==> spec_sorted(#[trigger] self.palettes@[i].1.entries@)
    }
}

} // verus!
