//! State changes kept on top of a store, with snapshots that they can be reverted to.
use vstd::prelude::*;

verus! {

/// A cache of values read from a store, kept in a `quick_cache::unsync::Cache`, whose own
/// type Verus cannot take (its default hasher is a type of another crate).
#[verifier::external_body]
pub struct ReadCache {
    cache: quick_cache::unsync::Cache<Vec<u8>, Vec<u8>>,
}

/// The entries a read cache holds.
pub uninterp spec fn cache_entries(c: ReadCache) -> Map<Seq<u8>, Seq<u8>>;

/// A cache's entries before anything is inserted.
pub open spec fn no_entries() -> Map<Seq<u8>, Seq<u8>> {
    Map::empty()
}

/// Calls `quick_cache::unsync::Cache::new`.
/// Claimed: the cache holds no entries.
#[verifier::external_body]
fn cache_new(items_capacity: usize) -> (r: ReadCache)
    ensures
        cache_entries(r) == no_entries(),
{
    ReadCache { cache: quick_cache::unsync::Cache::new(items_capacity) }
}

/// Calls `quick_cache::unsync::Cache::get` and copies the value out.
/// Claimed: the value is there exactly when the cache holds an entry for `key`, and it is
/// that entry's value.
#[verifier::external_body]
fn cache_get(cache: &ReadCache, key: &[u8]) -> (r: Option<Vec<u8>>)
    ensures
        r is Some <==> cache_entries(*cache).contains_key(key@),
        r matches Some(v) ==> v@ == cache_entries(*cache)[key@],
{
    cache.cache.get(key).map(|v| v.to_vec())
}

/// Calls `quick_cache::unsync::Cache::insert`.
/// Claimed: afterwards every entry is either `key` with `value` or an entry the cache held
/// before for another key; the cache may have evicted entries, `key` among them.
#[verifier::external_body]
fn cache_insert(cache: &mut ReadCache, key: Vec<u8>, value: Vec<u8>)
    ensures
        cache_entries(*final(cache)).submap_of(cache_entries(*old(cache)).insert(key@, value@)),
{
    cache.cache.insert(key, value)
}

/// Bytes, as a store's contents speak of them.
pub type ByteSeq = Seq<u8>;

/// The model of an optional value read.
pub open spec fn opt_bytes(r: Option<Vec<u8>>) -> Option<Seq<u8>> {
    match r {
        Some(v) => Some(v@),
        None => None,
    }
}

/// A store that state is read from and committed to.
pub trait Store {
    /// The value the store holds under `key`, if any.
    spec fn stored(&self, key: ByteSeq) -> Option<ByteSeq>;

    /// The value stored under `key`, if any.
    fn get(&self, key: &[u8]) -> (r: Option<Vec<u8>>)
        ensures
            opt_bytes(r) == self.stored(key@),
    ;

    /// Commits the state changes.
    fn commit(&mut self) -> Result<(), ()>;
}

/// A change of one key over the store: deleted, or updated to some bytes.
#[derive(Debug, PartialEq)]
pub enum OverlayValue {
    /// The key was deleted.
    Deleted,
    /// The key was set to these bytes.
    Updated(Vec<u8>),
}

/// The model of a change: `None` for a deletion.
pub open spec fn value_view(v: OverlayValue) -> Option<Seq<u8>> {
    match v {
        OverlayValue::Deleted => None,
        OverlayValue::Updated(d) => Some(d@),
    }
}

/// One entry of the change log, with what it needs to be undone.
#[derive(Debug, PartialEq)]
pub enum StateChange {
    /// A deletion, with the value the key read as before it.
    Delete { key: Vec<u8>, old_value: Option<Vec<u8>> },
    /// An update, with the change the key held before it, if any.
    Update { key: Vec<u8>, value: Vec<u8>, previous_value: Option<OverlayValue> },
}

/// The model of a change log entry.
pub enum ChangeModel {
    Delete { key: Seq<u8>, old_value: Option<Seq<u8>> },
    Update { key: Seq<u8>, value: Seq<u8>, previous_value: Option<Option<Seq<u8>>> },
}

impl View for StateChange {
    type V = ChangeModel;

    open spec fn view(&self) -> ChangeModel {
        match self {
            StateChange::Delete { key, old_value } => ChangeModel::Delete {
                key: key@,
                old_value: match old_value {
                    Some(v) => Some(v@),
                    None => None,
                },
            },
            StateChange::Update { key, value, previous_value } => ChangeModel::Update {
                key: key@,
                value: value@,
                previous_value: match previous_value {
                    Some(p) => Some(value_view(*p)),
                    None => None,
                },
            },
        }
    }
}

/// The models of a change log.
pub open spec fn changes_view(cs: Seq<StateChange>) -> Seq<ChangeModel> {
    cs.map_values(|c: StateChange| c@)
}

/// What a change does to the changes kept over the store.
pub open spec fn apply_change(c: ChangeModel, m: Map<Seq<u8>, Option<Seq<u8>>>) -> Map<Seq<u8>, Option<Seq<u8>>> {
    match c {
        ChangeModel::Update { key, value, .. } => m.insert(key, Some(value)),
        ChangeModel::Delete { key, .. } => m.insert(key, None),
    }
}

/// What undoing a change does to the changes kept over the store: an update puts back the
/// change the key held before it, or forgets the key if it held none; a deletion puts back
/// the value the key read as.
pub open spec fn revert_change(c: ChangeModel, m: Map<Seq<u8>, Option<Seq<u8>>>) -> Map<Seq<u8>, Option<Seq<u8>>> {
    match c {
        ChangeModel::Update { key, previous_value, .. } => match previous_value {
            Some(p) => m.insert(key, p),
            None => m.remove(key),
        },
        ChangeModel::Delete { key, old_value } => m.insert(key, old_value),
    }
}

/// Undoing a list of changes, the last one first.
pub open spec fn revert_all(cs: Seq<ChangeModel>, m: Map<Seq<u8>, Option<Seq<u8>>>) -> Map<Seq<u8>, Option<Seq<u8>>>
    decreases cs.len(),
{
    if cs.len() == 0 {
        m
    } else {
        revert_all(cs.drop_last(), revert_change(cs.last(), m))
    }
}

/// The changes kept as a list of entries, one per key.
pub open spec fn overlay_of(s: Seq<(Vec<u8>, OverlayValue)>) -> Map<Seq<u8>, Option<Seq<u8>>>
    decreases s.len(),
{
    if s.len() == 0 {
        Map::empty()
    } else {
        overlay_of(s.drop_last()).insert(s.last().0@, value_view(s.last().1))
    }
}

/// No key occurs twice.
pub open spec fn keys_unique(s: Seq<(Vec<u8>, OverlayValue)>) -> bool {
    forall|i: int, j: int| 0 <= i < j < s.len() ==> s[i].0@ != s[j].0@
}

proof fn lemma_overlay_index(s: Seq<(Vec<u8>, OverlayValue)>, i: int)
    requires
        keys_unique(s),
        0 <= i < s.len(),
    ensures
        overlay_of(s).contains_key(s[i].0@),
        overlay_of(s)[s[i].0@] == value_view(s[i].1),
    decreases s.len(),
{
    if i < s.len() - 1 {
        let front = s.drop_last();
        assert(front[i] == s[i]);
        lemma_overlay_index(front, i);
        assert(s[i].0@ != s[s.len() - 1].0@);
    }
}

proof fn lemma_overlay_absent(s: Seq<(Vec<u8>, OverlayValue)>, k: Seq<u8>)
    requires
        forall|i: int| 0 <= i < s.len() ==> (#[trigger] s[i]).0@ != k,
    ensures
        !overlay_of(s).contains_key(k),
    decreases s.len(),
{
    if s.len() > 0 {
        let front = s.drop_last();
        assert forall|i: int| 0 <= i < front.len() implies (#[trigger] front[i]).0@ != k by {
            assert(front[i] == s[i]);
        }
        lemma_overlay_absent(front, k);
        assert(s.last() == s[s.len() - 1]);
    }
}

proof fn lemma_overlay_remove(s: Seq<(Vec<u8>, OverlayValue)>, i: int)
    requires
        keys_unique(s),
        0 <= i < s.len(),
    ensures
        overlay_of(s.remove(i)) == overlay_of(s).remove(s[i].0@),
    decreases s.len(),
{
    let front = s.drop_last();
    let k = s[i].0@;
    if i == s.len() - 1 {
        assert(s.remove(i) =~= front);
        assert forall|j: int| 0 <= j < front.len() implies (#[trigger] front[j]).0@ != k by {
            assert(front[j] == s[j]);
        }
        lemma_overlay_absent(front, k);
        assert(overlay_of(front) =~= overlay_of(s).remove(k));
    } else {
        assert(s.remove(i) =~= front.remove(i).push(s.last()));
        assert(front[i] == s[i]);
        assert(keys_unique(front)) by {
            assert forall|a: int, b: int| 0 <= a < b < front.len() implies front[a].0@ != front[b].0@ by {
                assert(front[a] == s[a]);
                assert(front[b] == s[b]);
            }
        }
        lemma_overlay_remove(front, i);
        assert(s.last() == s[s.len() - 1]);
        assert(k != s.last().0@);
        assert(s.remove(i).drop_last() =~= front.remove(i));
        assert(s.remove(i).last() == s.last());
        assert(overlay_of(s.remove(i)) =~= overlay_of(s).remove(k));
    }
}

/// Whether two byte strings are equal.
fn bytes_eq(a: &[u8], b: &[u8]) -> (r: bool)
    ensures
        r == (a@ == b@),
{
    if a.len() != b.len() {
        return false;
    }
    let mut i: usize = 0;
    while i < a.len()
        invariant
            a@.len() == b@.len(),
            i <= a@.len(),
            forall|j: int| 0 <= j < i ==> a@[j] == b@[j],
        decreases a@.len() - i,
    {
        if a[i] != b[i] {
            return false;
        }
        i = i + 1;
    }
    proof {
        assert(a@ =~= b@);
    }
    true
}

/// The position of the entry for `key`, if there is one.
fn find_key(s: &Vec<(Vec<u8>, OverlayValue)>, key: &[u8]) -> (r: Option<usize>)
    ensures
        match r {
            Some(i) => i < s@.len() && s@[i as int].0@ == key@,
            None => forall|i: int| 0 <= i < s@.len() ==> (#[trigger] s@[i]).0@ != key@,
        },
{
    let mut i: usize = 0;
    while i < s.len()
        invariant
            i <= s@.len(),
            forall|j: int| 0 <= j < i ==> (#[trigger] s@[j]).0@ != key@,
        decreases s@.len() - i,
    {
        if bytes_eq(s[i].0.as_slice(), key) {
            return Some(i);
        }
        i = i + 1;
    }
    None
}

/// A position in a change log that it can be reverted to.
pub struct Snapshot {
    index: usize,
}

impl Snapshot {
    /// The position in the change log.
    pub closed spec fn index(&self) -> nat {
        self.index as nat
    }
}

/// Changes to a store kept in memory, logged so that they can be reverted to a snapshot,
/// with a cache of the values read from the store.
pub struct SnapshotState<S> {
    state: S,
    changes: Vec<(Vec<u8>, OverlayValue)>,
    changelog: Vec<StateChange>,
    cache: ReadCache,
}

impl<S> SnapshotState<S> {
    /// The store underneath.
    pub closed spec fn store(&self) -> S {
        self.state
    }

    /// The changes kept over the store: for each changed key, its value, or `None` if it
    /// was deleted.
    pub closed spec fn overlay(&self) -> Map<Seq<u8>, Option<Seq<u8>>> {
        overlay_of(self.changes@)
    }

    /// The change log, oldest first.
    pub closed spec fn changelog(&self) -> Seq<ChangeModel> {
        changes_view(self.changelog@)
    }

    /// The values cached from reads of the store.
    pub closed spec fn cached(&self) -> Map<Seq<u8>, Seq<u8>> {
        cache_entries(self.cache)
    }

    /// The changes are kept once per key.
    pub closed spec fn wf(&self) -> bool {
        keys_unique(self.changes@)
    }

    /// A state over `state` with no changes.
    pub fn new(state: S) -> (r: Self)
        ensures
            r.wf(),
            r.store() == state,
            r.overlay() == Map::<Seq<u8>, Option<Seq<u8>>>::empty(),
            r.changelog() == Seq::<ChangeModel>::empty(),
            r.cached() == Map::<Seq<u8>, Seq<u8>>::empty(),
    {
        let r = SnapshotState { state, changes: Vec::new(), changelog: Vec::new(), cache: cache_new(10_000) };
        proof {
            assert(r.changelog() =~= Seq::<ChangeModel>::empty());
        }
        r
    }

    /// Sets `key` to `value`, logging the change the key held before.
    pub fn set(&mut self, key: Vec<u8>, value: Vec<u8>)
        requires
            old(self).wf(),
        ensures
            final(self).wf(),
            final(self).store() == old(self).store(),
            final(self).cached() == old(self).cached(),
            final(self).overlay() == old(self).overlay().insert(key@, Some(value@)),
            final(self).changelog() == old(self).changelog().push(
                ChangeModel::Update {
                    key: key@,
                    value: value@,
                    previous_value: if old(self).overlay().contains_key(key@) {
                        Some(old(self).overlay()[key@])
                    } else {
                        None
                    },
                },
            ),
    {
        let ghost old_overlay = self.overlay();
        let stored_key = vstd::slice::slice_to_vec(key.as_slice());
        let stored_value = vstd::slice::slice_to_vec(value.as_slice());
        let previous_value = self.overlay_insert(stored_key, OverlayValue::Updated(stored_value));
        let change = StateChange::Update { key, value, previous_value };
        self.changelog.push(change);
        proof {
            assert(changes_view(self.changelog@) =~= changes_view(old(self).changelog@).push(change@));
        }
    }

    /// Deletes `key`, logging the value it read as before.
    pub fn delete(&mut self, key: &[u8])
        where S: Store,
        requires
            old(self).wf(),
        ensures
            final(self).wf(),
            final(self).store() == old(self).store(),
            final(self).overlay() == old(self).overlay().insert(key@, None),
            final(self).changelog().len() == old(self).changelog().len() + 1,
            final(self).changelog().drop_last() == old(self).changelog(),
            final(self).changelog().last() matches ChangeModel::Delete { key: k, old_value } && k == key@
                && old_value == old(self).read_value(key@),
            old(self).cache_after_read(key@, final(self).cached()),
    {
        let old_value = self.get(key);
        let stored_key = vstd::slice::slice_to_vec(key);
        let _ = self.overlay_insert(stored_key, OverlayValue::Deleted);
        let change = StateChange::Delete { key: vstd::slice::slice_to_vec(key), old_value };
        let ghost before = self.changelog@;
        self.changelog.push(change);
        proof {
            assert(changes_view(self.changelog@) =~= changes_view(before).push(change@));
            assert(changes_view(self.changelog@).drop_last() =~= changes_view(before));
        }
    }

    /// Sets the kept change of `key`, and gives back the change it held before, if any.
    fn overlay_insert(&mut self, key: Vec<u8>, v: OverlayValue) -> (r: Option<OverlayValue>)
        requires
            old(self).wf(),
        ensures
            final(self).wf(),
            final(self).store() == old(self).store(),
            final(self).cached() == old(self).cached(),
            final(self).changelog@ == old(self).changelog@,
            final(self).overlay() == old(self).overlay().insert(key@, value_view(v)),
            match r {
                Some(p) => old(self).overlay().contains_key(key@) && value_view(p) == old(self).overlay()[key@],
                None => !old(self).overlay().contains_key(key@),
            },
    {
        let ghost k = key@;
        let ghost vv = value_view(v);
        match find_key(&self.changes, key.as_slice()) {
            Some(i) => {
                proof {
                    lemma_overlay_index(self.changes@, i as int);
                    lemma_overlay_remove(self.changes@, i as int);
                }
                let ghost removed = self.changes@.remove(i as int);
                let (_, previous) = self.changes.remove(i);
                proof {
                    assert forall|j: int| 0 <= j < removed.len() implies (#[trigger] removed[j]).0@ != k by {
                        if j < i {
                            assert(removed[j] == old(self).changes@[j]);
                        } else {
                            assert(removed[j] == old(self).changes@[j + 1]);
                        }
                    }
                    assert forall|a: int, b: int| 0 <= a < b < removed.len() implies removed[a].0@ != removed[b].0@ by {
                        let a1 = if a < i { a } else { a + 1 };
                        let b1 = if b < i { b } else { b + 1 };
                        assert(removed[a] == old(self).changes@[a1]);
                        assert(removed[b] == old(self).changes@[b1]);
                    }
                }
                self.changes.push((key, v));
                proof {
                    assert(self.changes@.drop_last() =~= removed);
                    assert(self.overlay() =~= old(self).overlay().insert(k, vv));
                    assert forall|a: int, b: int| 0 <= a < b < self.changes@.len() implies self.changes@[a].0@ != self.changes@[b].0@ by {
                        if b == self.changes@.len() - 1 {
                            assert(self.changes@[a] == removed[a]);
                        } else {
                            assert(self.changes@[a] == removed[a]);
                            assert(self.changes@[b] == removed[b]);
                        }
                    }
                }
                Some(previous)
            },
            None => {
                proof {
                    lemma_overlay_absent(self.changes@, k);
                }
                let ghost before = self.changes@;
                self.changes.push((key, v));
                proof {
                    assert(self.changes@.drop_last() =~= before);
                    assert forall|a: int, b: int| 0 <= a < b < self.changes@.len() implies self.changes@[a].0@ != self.changes@[b].0@ by {
                        assert(self.changes@[a] == before[a]);
                        if b < self.changes@.len() - 1 {
                            assert(self.changes@[b] == before[b]);
                        }
                    }
                }
                None
            },
        }
    }

    /// Forgets the kept change of `key`.
    fn overlay_remove(&mut self, key: &[u8])
        requires
            old(self).wf(),
        ensures
            final(self).wf(),
            final(self).store() == old(self).store(),
            final(self).cached() == old(self).cached(),
            final(self).changelog@ == old(self).changelog@,
            final(self).overlay() == old(self).overlay().remove(key@),
    {
        match find_key(&self.changes, key) {
            Some(i) => {
                proof {
                    lemma_overlay_remove(self.changes@, i as int);
                }
                let ghost removed = self.changes@.remove(i as int);
                let _ = self.changes.remove(i);
                proof {
                    assert forall|a: int, b: int| 0 <= a < b < removed.len() implies removed[a].0@ != removed[b].0@ by {
                        let a1 = if a < i { a } else { a + 1 };
                        let b1 = if b < i { b } else { b + 1 };
                        assert(removed[a] == old(self).changes@[a1]);
                        assert(removed[b] == old(self).changes@[b1]);
                    }
                }
            },
            None => {
                proof {
                    lemma_overlay_absent(self.changes@, key@);
                    assert(self.overlay() =~= old(self).overlay().remove(key@));
                }
            },
        }
    }

    /// Undoes one change.
    fn revert_one(&mut self, change: StateChange)
        requires
            old(self).wf(),
        ensures
            final(self).wf(),
            final(self).store() == old(self).store(),
            final(self).cached() == old(self).cached(),
            final(self).changelog@ == old(self).changelog@,
            final(self).overlay() == revert_change(change@, old(self).overlay()),
    {
        match change {
            StateChange::Update { key, value, previous_value } => match previous_value {
                Some(p) => {
                    let _ = self.overlay_insert(key, p);
                },
                None => {
                    self.overlay_remove(key.as_slice());
                },
            },
            StateChange::Delete { key, old_value } => {
                let v = match old_value {
                    None => OverlayValue::Deleted,
                    Some(x) => OverlayValue::Updated(x),
                };
                let _ = self.overlay_insert(key, v);
            },
        }
    }

    /// The change log, oldest first.
    pub fn state_changes(self) -> (r: Vec<StateChange>)
        ensures
            changes_view(r@) == self.changelog(),
    {
        self.changelog
    }

    /// A snapshot at the last logged change: reverting to it undoes that change and every
    /// later one.
    pub fn snapshot(&mut self) -> (r: Snapshot)
        requires
            old(self).changelog().len() > 0,
        ensures
            *final(self) == *old(self),
            r.index() == old(self).changelog().len() - 1,
    {
        Snapshot { index: self.changelog.len() - 1 }
    }

    /// Undoes the logged changes from the snapshot's position on, the latest first, and
    /// drops them from the log. A snapshot past the end of the log changes nothing.
    pub fn revert_to_snapshot(&mut self, snapshot: Snapshot) -> (r: Result<(), ()>)
        requires
            old(self).wf(),
        ensures
            r is Ok,
            final(self).wf(),
            final(self).store() == old(self).store(),
            final(self).cached() == old(self).cached(),
            snapshot.index() <= old(self).changelog().len() ==> final(self).changelog() == old(self).changelog().take(
                snapshot.index() as int,
            ) && final(self).overlay() == revert_all(old(self).changelog().skip(snapshot.index() as int), old(self).overlay()),
            snapshot.index() > old(self).changelog().len() ==> final(self).changelog() == old(self).changelog()
                && final(self).overlay() == old(self).overlay(),
    {
        let ghost log = self.changelog();
        let ghost m0 = self.overlay();
        let n = self.changelog.len();
        if snapshot.index > n {
            return Ok(());
        }
        let mut i = snapshot.index;
        proof {
            assert(log.skip(n as int) =~= Seq::<ChangeModel>::empty());
            assert(log.take(n as int) =~= log);
        }
        while i < n
            invariant
                self.wf(),
                self.store() == old(self).store(),
                self.cached() == old(self).cached(),
                snapshot.index <= i <= n,
                n == log.len(),
                log == changes_view(old(self).changelog@),
                m0 == old(self).overlay(),
                self.changelog@.len() == n - (i - snapshot.index),
                self.changelog() == log.take(self.changelog@.len() as int),
                revert_all(log.skip(snapshot.index as int), m0) == revert_all(
                    log.subrange(snapshot.index as int, self.changelog@.len() as int),
                    self.overlay(),
                ),
            decreases n - i,
        {
            let len = self.changelog.len();
            let ghost cur = self.changelog@;
            proof {
                assert(len > 0);
            }
            let change = match self.changelog.pop() {
                Some(c) => c,
                None => {
                    return Ok(());
                },
            };
            proof {
                assert(change == cur[len - 1]);
                let sub = log.subrange(snapshot.index as int, len as int);
                assert(log.take(len as int)[len - 1] == change@);
                assert(sub.last() == change@);
                assert(sub.drop_last() =~= log.subrange(snapshot.index as int, len - 1));
                assert(changes_view(self.changelog@) =~= log.take(len - 1));
            }
            self.revert_one(change);
            i = i + 1;
        }
        proof {
            assert(self.changelog@.len() == snapshot.index);
            assert(log.subrange(snapshot.index as int, snapshot.index as int) =~= Seq::<ChangeModel>::empty());
        }
        Ok(())
    }
}

impl<S: Store> SnapshotState<S> {
    /// What a read of `key` gives: its kept change if it has one, else the value cached from
    /// the store, else the value the store holds.
    pub open spec fn read_value(&self, key: Seq<u8>) -> Option<Seq<u8>> {
        if self.overlay().contains_key(key) {
            self.overlay()[key]
        } else if self.cached().contains_key(key) {
            Some(self.cached()[key])
        } else {
            self.store().stored(key)
        }
    }

    /// Whether the cache may hold `c` after a read of `key`: a read that the kept changes or
    /// the cache answer leaves it as it is; a value read from the store is added to it, and
    /// the cache may evict entries then.
    pub open spec fn cache_after_read(&self, key: Seq<u8>, c: Map<Seq<u8>, Seq<u8>>) -> bool {
        if self.overlay().contains_key(key) || self.cached().contains_key(key) {
            c == self.cached()
        } else {
            match self.store().stored(key) {
                Some(v) => c.submap_of(self.cached().insert(key, v)),
                None => c == self.cached(),
            }
        }
    }

    /// The value of `key`: its kept change if it has one, else the cached value read from
    /// the store, else the store's own value, which is then cached.
    pub fn get(&mut self, key: &[u8]) -> (r: Option<Vec<u8>>)
        requires
            old(self).wf(),
        ensures
            final(self).wf(),
            final(self).store() == old(self).store(),
            final(self).overlay() == old(self).overlay(),
            final(self).changelog() == old(self).changelog(),
            opt_bytes(r) == old(self).read_value(key@),
            old(self).cache_after_read(key@, final(self).cached()),
    {
        match find_key(&self.changes, key) {
            Some(i) => {
                proof {
                    lemma_overlay_index(self.changes@, i as int);
                }
                match &self.changes[i].1 {
                    OverlayValue::Updated(data) => Some(vstd::slice::slice_to_vec(data.as_slice())),
                    OverlayValue::Deleted => None,
                }
            },
            None => {
                proof {
                    lemma_overlay_absent(self.changes@, key@);
                }
                match cache_get(&self.cache, key) {
                    Some(v) => Some(v),
                    None => match self.state.get(key) {
                        Some(v) => {
                            let copy = vstd::slice::slice_to_vec(v.as_slice());
                            cache_insert(&mut self.cache, vstd::slice::slice_to_vec(key), copy);
                            Some(v)
                        },
                        None => None,
                    },
                }
            },
        }
    }
}

/// The overlay after a list of changes made on top of `m`.
pub open spec fn replay(m: Map<Seq<u8>, Option<Seq<u8>>>, cs: Seq<ChangeModel>) -> Map<Seq<u8>, Option<Seq<u8>>>
    decreases cs.len(),
{
    if cs.len() == 0 {
        m
    } else {
        apply_change(cs.last(), replay(m, cs.drop_last()))
    }
}

/// Whether a change logged over the overlay `m` recorded what undoing it needs: an update,
/// the change the key held; a deletion, the kept change of a key that had one.
pub open spec fn records_one(m: Map<Seq<u8>, Option<Seq<u8>>>, c: ChangeModel) -> bool {
    match c {
        ChangeModel::Update { key, previous_value, .. } => previous_value == if m.contains_key(key) {
            Some(m[key])
        } else {
            None
        },
        ChangeModel::Delete { key, old_value } => m.contains_key(key) && old_value == m[key],
    }
}

/// Whether every change of a list, made on top of `m`, recorded what undoing it needs.
pub open spec fn records(m: Map<Seq<u8>, Option<Seq<u8>>>, cs: Seq<ChangeModel>) -> bool
    decreases cs.len(),
{
    if cs.len() == 0 {
        true
    } else {
        records(m, cs.drop_last()) && records_one(replay(m, cs.drop_last()), cs.last())
    }
}

/// Undoing a change that recorded what it needs gives back the overlay it was made on.
pub proof fn lemma_revert_change(m: Map<Seq<u8>, Option<Seq<u8>>>, c: ChangeModel)
    requires
        records_one(m, c),
    ensures
        revert_change(c, apply_change(c, m)) == m,
{
    match c {
        ChangeModel::Update { key, previous_value, .. } => {
            assert(revert_change(c, apply_change(c, m)) =~= m);
        },
        ChangeModel::Delete { key, old_value } => {
            assert(revert_change(c, apply_change(c, m)) =~= m);
        },
    }
}

/// Reverting every change made since some point, latest first, gives back the overlay as it
/// was at that point, provided each change recorded what undoing it needs (which updates
/// always do, and deletions of keys that had a kept change do).
pub proof fn lemma_revert_all(m: Map<Seq<u8>, Option<Seq<u8>>>, cs: Seq<ChangeModel>)
    requires
        records(m, cs),
    ensures
        revert_all(cs, replay(m, cs)) == m,
    decreases cs.len(),
{
    if cs.len() > 0 {
        let front = cs.drop_last();
        lemma_revert_change(replay(m, front), cs.last());
        lemma_revert_all(m, front);
    }
}

} // verus!
