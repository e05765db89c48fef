//! Maps from keys to unsigned integers that are only ever added to or subtracted from
//! without wrapping.
use vstd::prelude::*;

verus! {

/// An unsigned integer with checked addition and subtraction.
pub trait UInt: Sized + Copy {
    /// The number this value stands for.
    spec fn uint_value(self) -> int;

    /// The largest number a value can stand for.
    spec fn uint_max() -> int;

    /// Every value lies between zero and the largest.
    proof fn lemma_uint_range(self)
        ensures
            0 <= self.uint_value() <= Self::uint_max(),
    ;

    /// Zero.
    fn zero() -> (r: Self)
        ensures
            r.uint_value() == 0,
    ;

    /// The sum, unless it exceeds the largest value.
    fn add(self, other: Self) -> (r: Option<Self>)
        ensures
            match r {
                Some(x) => x.uint_value() == self.uint_value() + other.uint_value(),
                None => self.uint_value() + other.uint_value() > Self::uint_max(),
            },
    ;

    /// The difference, unless it is negative.
    fn sub(self, other: Self) -> (r: Option<Self>)
        ensures
            match r {
                Some(x) => x.uint_value() == self.uint_value() - other.uint_value(),
                None => self.uint_value() < other.uint_value(),
            },
    ;
}

impl UInt for u128 {
    open spec fn uint_value(self) -> int {
        self as int
    }

    open spec fn uint_max() -> int {
        u128::MAX as int
    }

    proof fn lemma_uint_range(self) {
    }

    fn zero() -> (r: Self) {
        0
    }

    fn add(self, other: Self) -> (r: Option<Self>) {
        self.checked_add(other)
    }

    fn sub(self, other: Self) -> (r: Option<Self>) {
        self.checked_sub(other)
    }
}

/// Why an update of a [`UIntMap`] was refused.
#[derive(Debug, Clone, Copy, PartialEq, Eq, Structural)]
pub enum UIntMapError {
    /// The sum would exceed the largest value.
    Overflow,
    /// The difference would be negative.
    Underflow,
}

/// The numbers a list of entries holds, by key.
pub open spec fn entries_map<V: UInt>(s: Seq<(Vec<u8>, V)>) -> Map<Seq<u8>, int>
    decreases s.len(),
{
    if s.len() == 0 {
        Map::empty()
    } else {
        entries_map(s.drop_last()).insert(s.last().0@, s.last().1.uint_value())
    }
}

/// The number a key holds: zero for a key that holds none.
pub open spec fn value_at(m: Map<Seq<u8>, int>, key: Seq<u8>) -> int {
    if m.contains_key(key) {
        m[key]
    } else {
        0
    }
}

/// A map from keys to unsigned integers, in which a key that was never set holds zero.
pub struct UIntMap<V: UInt> {
    entries: Vec<(Vec<u8>, V)>,
}

proof fn lemma_entries_index<V: UInt>(s: Seq<(Vec<u8>, V)>, i: int)
    requires
        forall|a: int, b: int| 0 <= a < b < s.len() ==> s[a].0@ != s[b].0@,
        0 <= i < s.len(),
    ensures
        entries_map(s).contains_key(s[i].0@),
        entries_map(s)[s[i].0@] == s[i].1.uint_value(),
    decreases s.len(),
{
    if i < s.len() - 1 {
        let front = s.drop_last();
        assert(front[i] == s[i]);
        lemma_entries_index(front, i);
        assert(s[i].0@ != s[s.len() - 1].0@);
    }
}

proof fn lemma_entries_absent<V: UInt>(s: Seq<(Vec<u8>, V)>, k: Seq<u8>)
    requires
        forall|i: int| 0 <= i < s.len() ==> (#[trigger] s[i]).0@ != k,
    ensures
        !entries_map(s).contains_key(k),
    decreases s.len(),
{
    if s.len() > 0 {
        let front = s.drop_last();
        assert forall|i: int| 0 <= i < front.len() implies (#[trigger] front[i]).0@ != k by {
            assert(front[i] == s[i]);
        }
        lemma_entries_absent(front, k);
        assert(s.last() == s[s.len() - 1]);
    }
}

/// Whether two byte strings are equal.
fn same_key(a: &[u8], b: &[u8]) -> (r: bool)
    ensures
        r == (a@ == b@),
{
    if a.len() != b.len() {
        return false;
    }
    let mut i: usize = 0;
    while i < a.len()
        invariant
            a@.len() == b@.len(),
            i <= a@.len(),
            forall|j: int| 0 <= j < i ==> a@[j] == b@[j],
        decreases a@.len() - i,
    {
        if a[i] != b[i] {
            return false;
        }
        i = i + 1;
    }
    proof {
        assert(a@ =~= b@);
    }
    true
}

impl<V: UInt> UIntMap<V> {
    /// The numbers held, by key.
    pub closed spec fn values(&self) -> Map<Seq<u8>, int> {
        entries_map(self.entries@)
    }

    /// Every key is held once.
    pub closed spec fn wf(&self) -> bool {
        forall|a: int, b: int| 0 <= a < b < self.entries@.len() ==> self.entries@[a].0@ != self.entries@[b].0@
    }

    /// A map in which every key holds zero.
    pub fn new() -> (r: Self)
        ensures
            r.wf(),
            r.values() == Map::<Seq<u8>, int>::empty(),
    {
        UIntMap { entries: Vec::new() }
    }

    /// The position of `key`, if it is held.
    fn position(&self, key: &[u8]) -> (r: Option<usize>)
        requires
            self.wf(),
        ensures
            match r {
                Some(i) => i < self.entries@.len() && self.entries@[i as int].0@ == key@ && self.values().contains_key(
                    key@,
                ) && self.values()[key@] == self.entries@[i as int].1.uint_value(),
                None => !self.values().contains_key(key@),
            },
    {
        let mut i: usize = 0;
        while i < self.entries.len()
            invariant
                self.wf(),
                i <= self.entries@.len(),
                forall|j: int| 0 <= j < i ==> (#[trigger] self.entries@[j]).0@ != key@,
            decreases self.entries@.len() - i,
        {
            if same_key(self.entries[i].0.as_slice(), key) {
                proof {
                    lemma_entries_index(self.entries@, i as int);
                }
                return Some(i);
            }
            i = i + 1;
        }
        proof {
            lemma_entries_absent(self.entries@, key@);
        }
        None
    }

    /// Sets `key` to `x`.
    fn put(&mut self, key: &[u8], x: V)
        requires
            old(self).wf(),
        ensures
            final(self).wf(),
            final(self).values() == old(self).values().insert(key@, x.uint_value()),
    {
        match self.position(key) {
            Some(i) => {
                let k = vstd::slice::slice_to_vec(self.entries[i].0.as_slice());
                let ghost before = self.entries@;
                self.entries.set(i, (k, x));
                proof {
                    assert(entries_map(self.entries@) =~= entries_map(before).insert(key@, x.uint_value())) by {
                        lemma_entries_update_view(before, i as int, k, x);
                    }
                    assert forall|a: int, b: int| 0 <= a < b < self.entries@.len() implies self.entries@[a].0@ != self.entries@[b].0@ by {
                        assert(self.entries@[a].0@ == before[a].0@);
                        assert(self.entries@[b].0@ == before[b].0@);
                    }
                }
            },
            None => {
                let ghost before = self.entries@;
                self.entries.push((vstd::slice::slice_to_vec(key), x));
                proof {
                    assert(self.entries@.drop_last() =~= before);
                    assert(forall|j: int| 0 <= j < before.len() ==> (#[trigger] before[j]).0@ != key@) by {
                        assert forall|j: int| 0 <= j < before.len() implies (#[trigger] before[j]).0@ != key@ by {
                            if before[j].0@ == key@ {
                                lemma_entries_index(before, j);
                            }
                        }
                    }
                    assert forall|a: int, b: int| 0 <= a < b < self.entries@.len() implies self.entries@[a].0@ != self.entries@[b].0@ by {
                        assert(self.entries@[a] == before[a]);
                        if b < self.entries@.len() - 1 {
                            assert(self.entries@[b] == before[b]);
                        }
                    }
                }
            },
        }
    }

    /// A map in which every key holds what it holds in this one.
    pub fn copy(&self) -> (r: Self)
        requires
            self.wf(),
        ensures
            r.wf(),
            r.values() == self.values(),
    {
        let mut entries: Vec<(Vec<u8>, V)> = Vec::new();
        let mut i: usize = 0;
        while i < self.entries.len()
            invariant
                i <= self.entries@.len(),
                entries@.len() == i,
                forall|j: int|
                    0 <= j < i ==> (#[trigger] entries@[j]).0@ == self.entries@[j].0@
                        && entries@[j].1 == self.entries@[j].1,
            decreases self.entries@.len() - i,
        {
            let k = vstd::slice::slice_to_vec(self.entries[i].0.as_slice());
            entries.push((k, self.entries[i].1));
            i = i + 1;
        }
        proof {
            lemma_entries_same_view(entries@, self.entries@);
            assert forall|a: int, b: int|
                0 <= a < b < entries@.len() implies entries@[a].0@ != entries@[b].0@ by {
                assert(entries@[a].0@ == self.entries@[a].0@);
                assert(entries@[b].0@ == self.entries@[b].0@);
            }
        }
        UIntMap { entries }
    }

    /// The number `key` holds: zero if it was never set.
    pub fn get(&self, key: &[u8]) -> (r: V)
        requires
            self.wf(),
        ensures
            r.uint_value() == value_at(self.values(), key@),
    {
        match self.position(key) {
            Some(i) => self.entries[i].1,
            None => V::zero(),
        }
    }

    /// Adds `value` to the number `key` holds and gives back the sum; refused, with nothing
    /// changed, if the sum exceeds the largest value.
    pub fn add(&mut self, key: &[u8], value: V) -> (r: Result<V, UIntMapError>)
        requires
            old(self).wf(),
        ensures
            final(self).wf(),
            match r {
                Ok(x) => x.uint_value() == value_at(old(self).values(), key@) + value.uint_value()
                    && final(self).values() == old(self).values().insert(key@, x.uint_value()),
                Err(e) => e == UIntMapError::Overflow && value_at(old(self).values(), key@) + value.uint_value()
                    > V::uint_max() && final(self).values() == old(self).values(),
            },
    {
        let current = self.get(key);
        match current.add(value) {
            Some(x) => {
                self.put(key, x);
                Ok(x)
            },
            None => Err(UIntMapError::Overflow),
        }
    }

    /// Subtracts `value` from the number `key` holds and gives back the difference; refused,
    /// with nothing changed, if the difference would be negative.
    pub fn safe_sub(&mut self, key: &[u8], value: V) -> (r: Result<V, UIntMapError>)
        requires
            old(self).wf(),
        ensures
            final(self).wf(),
            match r {
                Ok(x) => x.uint_value() == value_at(old(self).values(), key@) - value.uint_value()
                    && final(self).values() == old(self).values().insert(key@, x.uint_value()),
                Err(e) => e == UIntMapError::Underflow && value_at(old(self).values(), key@) < value.uint_value()
                    && final(self).values() == old(self).values(),
            },
    {
        let current = self.get(key);
        match current.sub(value) {
            Some(x) => {
                self.put(key, x);
                Ok(x)
            },
            None => Err(UIntMapError::Underflow),
        }
    }
}

proof fn lemma_entries_same_view<V: UInt>(s: Seq<(Vec<u8>, V)>, t: Seq<(Vec<u8>, V)>)
    requires
        s.len() == t.len(),
        forall|j: int| 0 <= j < s.len() ==> (#[trigger] s[j]).0@ == t[j].0@ && s[j].1 == t[j].1,
    ensures
        entries_map(s) == entries_map(t),
    decreases s.len(),
{
    if s.len() > 0 {
        let (a, b) = (s.drop_last(), t.drop_last());
        assert forall|j: int| 0 <= j < a.len() implies (#[trigger] a[j]).0@ == b[j].0@ && a[j].1 == b[j].1 by {
            assert(a[j] == s[j] && b[j] == t[j]);
        }
        lemma_entries_same_view(a, b);
        assert(s.last() == s[s.len() - 1] && t.last() == t[t.len() - 1]);
    }
}

proof fn lemma_entries_update_view<V: UInt>(s: Seq<(Vec<u8>, V)>, i: int, k: Vec<u8>, x: V)
    requires
        forall|a: int, b: int| 0 <= a < b < s.len() ==> s[a].0@ != s[b].0@,
        0 <= i < s.len(),
        k@ == s[i].0@,
    ensures
        entries_map(s.update(i, (k, x))) == entries_map(s).insert(s[i].0@, x.uint_value()),
    decreases s.len(),
{
    let t = s.update(i, (k, x));
    let front = s.drop_last();
    if i == s.len() - 1 {
        assert(t.drop_last() =~= front);
        assert(entries_map(t) =~= entries_map(s).insert(s[i].0@, x.uint_value()));
    } else {
        assert(t.drop_last() =~= front.update(i, (k, x)));
        assert(front[i] == s[i]);
        lemma_entries_update_view(front, i, k, x);
        assert(s[i].0@ != s[s.len() - 1].0@);
        assert(t.last() == s.last());
        assert(entries_map(t) =~= entries_map(s).insert(s[i].0@, x.uint_value()));
    }
}

/// Adding an amount to a key and then subtracting it again leaves every key holding what it
/// held before.
pub proof fn lemma_add_then_sub(m: Map<Seq<u8>, int>, key: Seq<u8>, amount: int, k: Seq<u8>)
    requires
        amount >= 0,
    ensures
        ({
            let sum = value_at(m, key) + amount;
            let m1 = m.insert(key, sum);
            let m2 = m1.insert(key, value_at(m1, key) - amount);
            value_at(m2, k) == value_at(m, k)
        }),
{
}

} // verus!
