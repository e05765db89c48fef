//! Tables from byte-string keys to values.
use vstd::prelude::*;

verus! {

/// The map that a list of entries stands for: a later entry for a key replaces an earlier one.
pub open spec fn table_map<T>(s: Seq<(Vec<u8>, T)>) -> Map<Seq<u8>, T>
    decreases s.len(),
{
    if s.len() == 0 {
        Map::empty()
    } else {
        table_map(s.drop_last()).insert(s.last().0@, s.last().1)
    }
}

/// A table from byte-string keys to values.
pub struct Table<T> {
    entries: Vec<(Vec<u8>, T)>,
}

impl<T> View for Table<T> {
    type V = Map<Seq<u8>, T>;

    closed spec fn view(&self) -> Map<Seq<u8>, T> {
        table_map(self.entries@)
    }
}

proof fn lemma_table_index<T>(s: Seq<(Vec<u8>, T)>, i: int)
    requires
        forall|a: int, b: int| 0 <= a < b < s.len() ==> s[a].0@ != s[b].0@,
        0 <= i < s.len(),
    ensures
        table_map(s).contains_key(s[i].0@),
        table_map(s)[s[i].0@] == s[i].1,
    decreases s.len(),
{
    if i < s.len() - 1 {
        let front = s.drop_last();
        assert(front[i] == s[i]);
        lemma_table_index(front, i);
        assert(s[i].0@ != s[s.len() - 1].0@);
    }
}

proof fn lemma_table_absent<T>(s: Seq<(Vec<u8>, T)>, k: Seq<u8>)
    requires
        forall|i: int| 0 <= i < s.len() ==> (#[trigger] s[i]).0@ != k,
    ensures
        !table_map(s).contains_key(k),
    decreases s.len(),
{
    if s.len() > 0 {
        let front = s.drop_last();
        assert forall|i: int| 0 <= i < front.len() implies (#[trigger] front[i]).0@ != k by {
            assert(front[i] == s[i]);
        }
        lemma_table_absent(front, k);
        assert(s.last() == s[s.len() - 1]);
    }
}

proof fn lemma_table_update<T>(s: Seq<(Vec<u8>, T)>, i: int, k: Vec<u8>, x: T)
    requires
        forall|a: int, b: int| 0 <= a < b < s.len() ==> s[a].0@ != s[b].0@,
        0 <= i < s.len(),
        k@ == s[i].0@,
    ensures
        table_map(s.update(i, (k, x))) == table_map(s).insert(s[i].0@, x),
    decreases s.len(),
{
    let t = s.update(i, (k, x));
    let front = s.drop_last();
    if i == s.len() - 1 {
        assert(t.drop_last() =~= front);
        assert(table_map(t) =~= table_map(s).insert(s[i].0@, x));
    } else {
        assert(t.drop_last() =~= front.update(i, (k, x)));
        assert(front[i] == s[i]);
        lemma_table_update(front, i, k, x);
        assert(s[i].0@ != s[s.len() - 1].0@);
        assert(t.last() == s.last());
        assert(table_map(t) =~= table_map(s).insert(s[i].0@, x));
    }
}

/// Whether two byte strings are equal.
fn same_bytes(a: &[u8], b: &[u8]) -> (r: bool)
    ensures
        r == (a@ == b@),
{
    if a.len() != b.len() {
        return false;
    }
    let mut i: usize = 0;
    while i < a.len()
        invariant
            a@.len() == b@.len(),
            i <= a@.len(),
            forall|j: int| 0 <= j < i ==> a@[j] == b@[j],
        decreases a@.len() - i,
    {
        if a[i] != b[i] {
            return false;
        }
        i = i + 1;
    }
    proof {
        assert(a@ =~= b@);
    }
    true
}

impl<T> Table<T> {
    /// Every key is held once.
    pub closed spec fn wf(&self) -> bool {
        forall|a: int, b: int|
            0 <= a < b < self.entries@.len() ==> self.entries@[a].0@ != self.entries@[b].0@
    }

    /// An empty table.
    pub fn new() -> (r: Self)
        ensures
            r.wf(),
            r@ == Map::<Seq<u8>, T>::empty(),
    {
        Table { entries: Vec::new() }
    }

    fn position(&self, key: &[u8]) -> (r: Option<usize>)
        requires
            self.wf(),
        ensures
            match r {
                Some(i) => i < self.entries@.len() && self.entries@[i as int].0@ == key@
                    && self@.contains_key(key@) && self@[key@] == self.entries@[i as int].1,
                None => !self@.contains_key(key@),
            },
    {
        let mut i: usize = 0;
        while i < self.entries.len()
            invariant
                self.wf(),
                i <= self.entries@.len(),
                forall|j: int| 0 <= j < i ==> (#[trigger] self.entries@[j]).0@ != key@,
            decreases self.entries@.len() - i,
        {
            if same_bytes(self.entries[i].0.as_slice(), key) {
                proof {
                    lemma_table_index(self.entries@, i as int);
                }
                return Some(i);
            }
            i = i + 1;
        }
        proof {
            lemma_table_absent(self.entries@, key@);
        }
        None
    }

    /// The value held under `key`, if any, by reference.
    pub fn get_ref(&self, key: &[u8]) -> (r: Option<&T>)
        requires
            self.wf(),
        ensures
            r == (if self@.contains_key(key@) {
                Some(&self@[key@])
            } else {
                None::<&T>
            }),
    {
        match self.position(key) {
            Some(i) => Some(&self.entries[i].1),
            None => None,
        }
    }

    /// The value held under `key`, if any.
    pub fn get(&self, key: &[u8]) -> (r: Option<T>)
        where T: Copy
        requires
            self.wf(),
        ensures
            r == (if self@.contains_key(key@) {
                Some(self@[key@])
            } else {
                None::<T>
            }),
    {
        match self.position(key) {
            Some(i) => Some(self.entries[i].1),
            None => None,
        }
    }

    /// Holds `x` under `key`, in place of what was held there.
    pub fn set(&mut self, key: &[u8], x: T)
        requires
            old(self).wf(),
        ensures
            final(self).wf(),
            final(self)@ == old(self)@.insert(key@, x),
    {
        match self.position(key) {
            Some(i) => {
                let k = vstd::slice::slice_to_vec(self.entries[i].0.as_slice());
                let ghost before = self.entries@;
                self.entries.set(i, (k, x));
                proof {
                    lemma_table_update(before, i as int, k, x);
                    assert forall|a: int, b: int|
                        0 <= a < b < self.entries@.len() implies self.entries@[a].0@
                        != self.entries@[b].0@ by {
                        assert(self.entries@[a].0@ == before[a].0@);
                        assert(self.entries@[b].0@ == before[b].0@);
                    }
                }
            },
            None => {
                let ghost before = self.entries@;
                self.entries.push((vstd::slice::slice_to_vec(key), x));
                proof {
                    assert(self.entries@.drop_last() =~= before);
                    assert forall|j: int| 0 <= j < before.len() implies (#[trigger] before[j]).0@
                        != key@ by {
                        if before[j].0@ == key@ {
                            lemma_table_index(before, j);
                        }
                    }
                    assert forall|a: int, b: int|
                        0 <= a < b < self.entries@.len() implies self.entries@[a].0@
                        != self.entries@[b].0@ by {
                        assert(self.entries@[a] == before[a]);
                        if b < self.entries@.len() - 1 {
                            assert(self.entries@[b] == before[b]);
                        }
                    }
                }
            },
        }
    }
}

} // verus!
