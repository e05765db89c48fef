//! An in-memory multi-account key-value store with nested transactions and committed
//! versions, kept in persistent collections so that frames and versions share their data.
use vstd::prelude::*;

verus! {

/// An event emitted during a transaction.
#[derive(Debug, Clone, PartialEq)]
pub struct EventData {
    /// The account that emitted the event.
    pub sender: u128,
    /// The type selector of the event's data.
    pub type_selector: u64,
    /// The encoded event.
    pub data: Vec<u8>,
}

/// The model of an event.
pub open spec fn event_model(e: EventData) -> (u128, u64, Seq<u8>) {
    (e.sender, e.type_selector, e.data@)
}

/// The key-value store of one account, kept in an `imbl::OrdMap` (whose type Verus cannot
/// take: its pointer-kind parameter is bound by a trait of another crate).
#[verifier::external_body]
#[derive(Debug)]
pub struct Store {
    kv_store: imbl::OrdMap<Vec<u8>, Vec<u8>>,
}

impl Clone for Store {
    /// Calls `imbl::OrdMap::clone`; [`store_clone`] states what the copy holds.
    #[verifier::external_body]
    fn clone(&self) -> Self {
        Store { kv_store: self.kv_store.clone() }
    }
}

/// The entries of an account's store.
pub uninterp spec fn store_entries(s: Store) -> Map<Seq<u8>, Seq<u8>>;

/// The stores of the accounts, kept in an `imbl::HashMap`.
#[verifier::external_body]
#[derive(Debug)]
pub struct AccountStores {
    stores: imbl::HashMap<u128, Store>,
}

impl Clone for AccountStores {
    /// Calls `imbl::HashMap::clone`; [`stores_clone`] states what the copy holds.
    #[verifier::external_body]
    fn clone(&self) -> Self {
        AccountStores { stores: self.stores.clone() }
    }
}

/// The entries of each account's store, by account.
pub uninterp spec fn account_stores(a: AccountStores) -> Map<u128, Map<Seq<u8>, Seq<u8>>>;

/// The events of a frame, kept in an `imbl::Vector`.
#[verifier::external_body]
#[derive(Debug)]
pub struct EventList {
    events: imbl::Vector<EventData>,
}

/// The events of a list, oldest first.
pub uninterp spec fn event_list(l: EventList) -> Seq<EventData>;

/// The committed versions, kept in an `imbl::Vector`.
#[verifier::external_body]
pub struct VersionList {
    versions: imbl::Vector<MultiStore>,
}

/// A committed version: the entries of each account's store, and the models of its events.
pub type StoreVersion = (Map<u128, Map<Seq<u8>, Seq<u8>>>, Seq<(u128, u64, Seq<u8>)>);

/// The committed versions, oldest first.
pub uninterp spec fn version_list(l: VersionList) -> Seq<StoreVersion>;

/// Calls `imbl::OrdMap::new`.
/// Claimed: the map is empty.
#[verifier::external_body]
fn store_new() -> (r: Store)
    ensures
        store_entries(r) == no_entries(),
{
    Store { kv_store: imbl::OrdMap::new() }
}

/// Calls `imbl::OrdMap::clone`.
/// Claimed: the copy holds the same entries.
#[verifier::external_body]
fn store_clone(s: &Store) -> (r: Store)
    ensures
        store_entries(r) == store_entries(*s),
{
    Store { kv_store: s.kv_store.clone() }
}

/// Calls `imbl::OrdMap::get` and copies the value out.
/// Claimed: the value is there exactly when the map has the key, and is the key's value.
#[verifier::external_body]
fn store_get(s: &Store, key: &[u8]) -> (r: Option<Vec<u8>>)
    ensures
        r is Some <==> store_entries(*s).contains_key(key@),
        r matches Some(v) ==> v@ == store_entries(*s)[key@],
{
    s.kv_store.get(key).map(|v| v.to_vec())
}

/// Calls `imbl::OrdMap::insert`.
/// Claimed: the key then has the value, and the other entries stay.
#[verifier::external_body]
fn store_insert(s: &mut Store, key: Vec<u8>, value: Vec<u8>)
    ensures
        store_entries(*final(s)) == store_entries(*old(s)).insert(key@, value@),
{
    s.kv_store.insert(key, value);
}

/// Calls `imbl::HashMap::new`.
/// Claimed: the map is empty.
#[verifier::external_body]
fn stores_new() -> (r: AccountStores)
    ensures
        account_stores(r) == no_accounts(),
{
    AccountStores { stores: imbl::HashMap::new() }
}

/// Calls `imbl::HashMap::clone`.
/// Claimed: the copy holds the same entries.
#[verifier::external_body]
fn stores_clone(a: &AccountStores) -> (r: AccountStores)
    ensures
        account_stores(r) == account_stores(*a),
{
    AccountStores { stores: a.stores.clone() }
}

/// Calls `imbl::HashMap::get` and copies the store out with `imbl::OrdMap::clone`.
/// Claimed: the store is there exactly when the map has the account, and holds that
/// account's entries.
#[verifier::external_body]
fn stores_get(a: &AccountStores, account: u128) -> (r: Option<Store>)
    ensures
        r is Some <==> account_stores(*a).contains_key(account),
        r matches Some(s) ==> store_entries(s) == account_stores(*a)[account],
{
    a.stores.get(&account).cloned()
}

/// Calls `imbl::HashMap::insert`.
/// Claimed: the account then has the store, and the other entries stay.
#[verifier::external_body]
fn stores_insert(a: &mut AccountStores, account: u128, store: Store)
    ensures
        account_stores(*final(a)) == account_stores(*old(a)).insert(account, store_entries(store)),
{
    a.stores.insert(account, store);
}

/// Calls `imbl::HashMap::remove`.
/// Claimed: the account then has no store, and the other entries stay.
#[verifier::external_body]
fn stores_remove(a: &mut AccountStores, account: u128)
    ensures
        account_stores(*final(a)) == account_stores(*old(a)).remove(account),
{
    a.stores.remove(&account);
}

/// Calls `imbl::Vector::new`.
/// Claimed: the list is empty.
#[verifier::external_body]
fn events_new() -> (r: EventList)
    ensures
        event_list(r) == Seq::<EventData>::empty(),
{
    EventList { events: imbl::Vector::new() }
}

/// Calls `imbl::Vector::clone`.
/// Claimed: the copy holds the same events.
#[verifier::external_body]
fn events_clone(l: &EventList) -> (r: EventList)
    ensures
        event_list(r) == event_list(*l),
{
    EventList { events: l.events.clone() }
}

/// Calls `imbl::Vector::push_back`.
/// Claimed: the event is appended.
#[verifier::external_body]
fn events_push_back(l: &mut EventList, e: EventData)
    ensures
        event_list(*final(l)) == event_list(*old(l)).push(e),
{
    l.events.push_back(e)
}

/// Calls `imbl::Vector::iter` and copies the events out in order.
/// Claimed: the copy holds the same events.
#[verifier::external_body]
fn events_to_vec(l: &EventList) -> (r: Vec<EventData>)
    ensures
        r@ == event_list(*l),
{
    l.events.iter().cloned().collect()
}

/// Calls `imbl::Vector::new`.
/// Claimed: the list is empty.
#[verifier::external_body]
fn versions_new() -> (r: VersionList)
    ensures
        version_list(r) == Seq::<StoreVersion>::empty(),
{
    VersionList { versions: imbl::Vector::new() }
}

/// Calls `imbl::Vector::last`, and copies the last version out.
/// Claimed: the copy is there exactly when the list is not empty, and holds the same stores and
/// events as the last version.
#[verifier::external_body]
fn versions_last(l: &VersionList) -> (r: Option<MultiStore>)
    ensures
        r is Some <==> version_list(*l).len() > 0,
        r matches Some(m) ==> m.model() == version_list(*l).last(),
{
    l.versions.last().map(|m| MultiStore { stores: m.stores.clone(), events: m.events.clone() })
}

/// Calls `imbl::Vector::push_back`.
/// Claimed: the version is appended.
#[verifier::external_body]
fn versions_push_back(l: &mut VersionList, m: MultiStore)
    ensures
        version_list(*final(l)) == version_list(*old(l)).push(m.model()),
{
    l.versions.push_back(m)
}

/// No entries.
pub open spec fn no_entries() -> Map<Seq<u8>, Seq<u8>> {
    Map::empty()
}

/// No accounts.
pub open spec fn no_accounts() -> Map<u128, Map<Seq<u8>, Seq<u8>>> {
    Map::empty()
}

/// The stores of all accounts at one point.
#[derive(Clone, Debug)]
pub struct MultiStore {
    stores: AccountStores,
    events: Vec<EventData>,
}

impl MultiStore {
    /// The entries of each account's store.
    pub closed spec fn accounts(&self) -> Map<u128, Map<Seq<u8>, Seq<u8>>> {
        account_stores(self.stores)
    }

    /// The entries of each account's store, and the models of the events.
    pub closed spec fn model(&self) -> StoreVersion {
        (self.accounts(), self.events@.map_values(|e: EventData| event_model(e)))
    }

    /// No account has a store, and there are no events.
    pub fn new() -> (r: Self)
        ensures
            r.accounts() == Map::<u128, Map<Seq<u8>, Seq<u8>>>::empty(),
            r.model().1 == Seq::<(u128, u64, Seq<u8>)>::empty(),
    {
        let r = MultiStore { stores: stores_new(), events: Vec::new() };
        proof {
            assert(r.accounts() =~= Map::<u128, Map<Seq<u8>, Seq<u8>>>::empty());
        }
        r
    }

    /// A copy holding the same stores and no events.
    pub fn copy(&self) -> (r: Self)
        ensures
            r.accounts() == self.accounts(),
            r.model().1 == Seq::<(u128, u64, Seq<u8>)>::empty(),
    {
        MultiStore { stores: stores_clone(&self.stores), events: Vec::new() }
    }
}

/// One level of the call stack of a transaction: the stores as this level sees them, and the
/// events it emitted.
pub struct Frame {
    store: MultiStore,
    events: EventList,
}

/// The model of a frame: the entries of each account's store, and the events.
pub struct FrameModel {
    pub accounts: Map<u128, Map<Seq<u8>, Seq<u8>>>,
    pub events: Seq<EventData>,
}

impl Frame {
    /// The model of the frame.
    pub closed spec fn model(&self) -> FrameModel {
        FrameModel { accounts: self.store.accounts(), events: event_list(self.events) }
    }
}

/// The models of a call stack.
pub open spec fn frames_model(fs: Seq<Frame>) -> Seq<FrameModel> {
    fs.map_values(|f: Frame| f.model())
}

/// Why a transaction operation failed.
#[derive(Debug, Clone, Copy, PartialEq, Eq, Structural)]
pub enum TxError {
    /// The call stack was empty.
    FatalExecutionError,
}

/// A transaction: a stack of frames, the innermost last.
pub struct Tx {
    call_stack: Vec<Frame>,
}

/// The frames after a write to the innermost one.
pub open spec fn set_top(fs: Seq<FrameModel>, accounts: Map<u128, Map<Seq<u8>, Seq<u8>>>) -> Seq<FrameModel> {
    fs.update(fs.len() - 1, FrameModel { accounts, events: fs.last().events })
}

/// What a read of `key` in `account`'s store gives in the innermost frame.
pub open spec fn read_key(accounts: Map<u128, Map<Seq<u8>, Seq<u8>>>, account: u128, key: Seq<u8>) -> Option<Seq<u8>> {
    if accounts.contains_key(account) && accounts[account].contains_key(key) {
        Some(accounts[account][key])
    } else {
        None
    }
}

/// The stores after setting `key` to `value` in `account`'s store, which is created if the
/// account has none.
pub open spec fn write_key(
    accounts: Map<u128, Map<Seq<u8>, Seq<u8>>>,
    account: u128,
    key: Seq<u8>,
    value: Seq<u8>,
) -> Map<u128, Map<Seq<u8>, Seq<u8>>> {
    let store = if accounts.contains_key(account) {
        accounts[account]
    } else {
        Map::empty()
    };
    accounts.insert(account, store.insert(key, value))
}

impl Tx {
    /// The call stack, outermost first.
    pub closed spec fn frames(&self) -> Seq<FrameModel> {
        frames_model(self.call_stack@)
    }

    /// The value of `key` in `account`'s store, as the innermost frame sees it.
    pub fn kv_get(&self, account_id: u128, scope: Option<u128>, key: &[u8]) -> (r: Result<Option<Vec<u8>>, TxError>)
        requires
            scope is None,
        ensures
            self.frames().len() == 0 ==> r == Err::<Option<Vec<u8>>, TxError>(TxError::FatalExecutionError),
            self.frames().len() > 0 ==> (r matches Ok(v) && match (v, read_key(self.frames().last().accounts, account_id, key@)) {
                (Some(x), Some(y)) => x@ == y,
                (None, None) => true,
                _ => false,
            }),
    {
        let n = self.call_stack.len();
        if n == 0 {
            return Err(TxError::FatalExecutionError);
        }
        let frame = &self.call_stack[n - 1];
        proof {
            assert(self.frames().last() == frame.model());
        }
        match stores_get(&frame.store.stores, account_id) {
            Some(store) => Ok(store_get(&store, key)),
            None => Ok(None),
        }
    }

    /// Sets `key` to `value` in `account`'s store in the innermost frame, creating the store
    /// if the account has none.
    pub fn kv_set(&mut self, account_id: u128, scope: Option<u128>, key: &[u8], value: &[u8]) -> (r: Result<(), TxError>)
        requires
            scope is None,
        ensures
            old(self).frames().len() == 0 ==> r == Err::<(), TxError>(TxError::FatalExecutionError) && final(self).frames()
                == old(self).frames(),
            old(self).frames().len() > 0 ==> r is Ok && final(self).frames() == set_top(
                old(self).frames(),
                write_key(old(self).frames().last().accounts, account_id, key@, value@),
            ),
    {
        let n = self.call_stack.len();
        if n == 0 {
            return Err(TxError::FatalExecutionError);
        }
        let mut frame = self.call_stack.pop().unwrap();
        let mut store = match stores_get(&frame.store.stores, account_id) {
            Some(s) => s,
            None => store_new(),
        };
        store_insert(&mut store, vstd::slice::slice_to_vec(key), vstd::slice::slice_to_vec(value));
        stores_insert(&mut frame.store.stores, account_id, store);
        let ghost popped = self.call_stack@;
        self.call_stack.push(frame);
        proof {
            let old_accounts = old(self).frames().last().accounts;
            assert(old(self).call_stack@.last().model() == old(self).frames().last());
            assert(frame.store.accounts() =~= write_key(old_accounts, account_id, key@, value@));
            assert(self.call_stack@ =~= old(self).call_stack@.update(n - 1, frame));
            assert(self.frames() =~= set_top(
                old(self).frames(),
                write_key(old_accounts, account_id, key@, value@),
            ));
        }
        Ok(())
    }

    /// Removes `account`'s whole store in the innermost frame.
    pub fn kv_delete(&mut self, account_id: u128, scope: Option<u128>, key: &[u8]) -> (r: Result<(), TxError>)
        requires
            scope is None,
        ensures
            old(self).frames().len() == 0 ==> r == Err::<(), TxError>(TxError::FatalExecutionError) && final(self).frames()
                == old(self).frames(),
            old(self).frames().len() > 0 ==> r is Ok && final(self).frames() == set_top(
                old(self).frames(),
                old(self).frames().last().accounts.remove(account_id),
            ),
    {
        self.delete_account_storage(account_id)
    }

    /// Opens a nested frame that starts from the innermost frame's stores, with no events.
    pub fn begin_tx(&mut self) -> (r: Result<(), TxError>)
        ensures
            old(self).frames().len() == 0 ==> r == Err::<(), TxError>(TxError::FatalExecutionError) && final(self).frames()
                == old(self).frames(),
            old(self).frames().len() > 0 ==> r is Ok && final(self).frames() == old(self).frames().push(
                FrameModel { accounts: old(self).frames().last().accounts, events: Seq::empty() },
            ),
    {
        let n = self.call_stack.len();
        if n == 0 {
            return Err(TxError::FatalExecutionError);
        }
        let store = self.call_stack[n - 1].store.copy();
        let frame = Frame { store, events: events_new() };
        proof {
            assert(old(self).call_stack@.last().model() == old(self).frames().last());
        }
        self.call_stack.push(frame);
        proof {
            assert(self.frames() =~= old(self).frames().push(
                FrameModel { accounts: old(self).frames().last().accounts, events: Seq::empty() },
            ));
        }
        Ok(())
    }

    /// Closes the innermost frame, handing its stores and events to the frame around it.
    /// Closing the outermost frame leaves no frame, and fails.
    pub fn commit_tx(&mut self) -> (r: Result<(), TxError>)
        ensures
            old(self).frames().len() <= 1 ==> r == Err::<(), TxError>(TxError::FatalExecutionError) && final(self).frames()
                == (if old(self).frames().len() == 0 {
                    old(self).frames()
                } else {
                    Seq::<FrameModel>::empty()
                }),
            old(self).frames().len() > 1 ==> r is Ok && final(self).frames() == old(self).frames().drop_last().update(
                old(self).frames().len() - 2,
                old(self).frames().last(),
            ),
    {
        let n = self.call_stack.len();
        if n == 0 {
            return Err(TxError::FatalExecutionError);
        }
        let current = self.call_stack.pop().unwrap();
        if n == 1 {
            proof {
                assert(self.frames() =~= Seq::<FrameModel>::empty());
            }
            return Err(TxError::FatalExecutionError);
        }
        let _ = self.call_stack.pop().unwrap();
        self.call_stack.push(current);
        proof {
            assert(self.call_stack@ =~= old(self).call_stack@.drop_last().update(n - 2, current));
            assert(self.frames() =~= old(self).frames().drop_last().update(n - 2, old(self).frames().last()));
        }
        Ok(())
    }

    /// Drops the innermost frame and everything it did.
    pub fn rollback_tx(&mut self) -> (r: Result<(), TxError>)
        ensures
            r is Ok,
            final(self).frames() == if old(self).frames().len() == 0 {
                old(self).frames()
            } else {
                old(self).frames().drop_last()
            },
    {
        let _ = self.call_stack.pop();
        proof {
            assert(self.frames() =~= if old(self).frames().len() == 0 {
                old(self).frames()
            } else {
                old(self).frames().drop_last()
            });
        }
        Ok(())
    }

    /// Gives `account` an empty store in the innermost frame.
    pub fn create_account_storage(&mut self, account: u128) -> (r: Result<(), TxError>)
        ensures
            old(self).frames().len() == 0 ==> r == Err::<(), TxError>(TxError::FatalExecutionError) && final(self).frames()
                == old(self).frames(),
            old(self).frames().len() > 0 ==> r is Ok && final(self).frames() == set_top(
                old(self).frames(),
                old(self).frames().last().accounts.insert(account, Map::empty()),
            ),
    {
        let n = self.call_stack.len();
        if n == 0 {
            return Err(TxError::FatalExecutionError);
        }
        let mut frame = self.call_stack.pop().unwrap();
        stores_insert(&mut frame.store.stores, account, store_new());
        self.call_stack.push(frame);
        proof {
            assert(old(self).call_stack@.last().model() == old(self).frames().last());
            assert(frame.store.accounts() =~= old(self).frames().last().accounts.insert(account, Map::empty()));
            assert(self.call_stack@ =~= old(self).call_stack@.update(n - 1, frame));
            assert(self.frames() =~= set_top(old(self).frames(), old(self).frames().last().accounts.insert(account, Map::empty())));
        }
        Ok(())
    }

    /// Removes `account`'s store in the innermost frame.
    pub fn delete_account_storage(&mut self, account: u128) -> (r: Result<(), TxError>)
        ensures
            old(self).frames().len() == 0 ==> r == Err::<(), TxError>(TxError::FatalExecutionError) && final(self).frames()
                == old(self).frames(),
            old(self).frames().len() > 0 ==> r is Ok && final(self).frames() == set_top(
                old(self).frames(),
                old(self).frames().last().accounts.remove(account),
            ),
    {
        let n = self.call_stack.len();
        if n == 0 {
            return Err(TxError::FatalExecutionError);
        }
        let mut frame = self.call_stack.pop().unwrap();
        stores_remove(&mut frame.store.stores, account);
        self.call_stack.push(frame);
        proof {
            assert(old(self).call_stack@.last().model() == old(self).frames().last());
            assert(frame.store.accounts() =~= old(self).frames().last().accounts.remove(account));
            assert(self.call_stack@ =~= old(self).call_stack@.update(n - 1, frame));
            assert(self.frames() =~= set_top(old(self).frames(), old(self).frames().last().accounts.remove(account)));
        }
        Ok(())
    }

    /// Appends an event to the innermost frame.
    pub fn emit_event(&mut self, sender: u128, type_selector: u64, data: &[u8]) -> (r: Result<(), TxError>)
        ensures
            old(self).frames().len() == 0 ==> r == Err::<(), TxError>(TxError::FatalExecutionError) && final(self).frames()
                == old(self).frames(),
            old(self).frames().len() > 0 ==> r is Ok && final(self).frames().len() == old(self).frames().len()
                && final(self).frames().drop_last() == old(self).frames().drop_last()
                && final(self).frames().last().accounts == old(self).frames().last().accounts
                && final(self).frames().last().events.len() == old(self).frames().last().events.len() + 1
                && final(self).frames().last().events.drop_last() == old(self).frames().last().events
                && event_model(final(self).frames().last().events.last()) == (sender, type_selector, data@),
    {
        let n = self.call_stack.len();
        if n == 0 {
            return Err(TxError::FatalExecutionError);
        }
        let mut frame = self.call_stack.pop().unwrap();
        let ghost before = frame.model();
        let e = EventData { sender, type_selector, data: vstd::slice::slice_to_vec(data) };
        events_push_back(&mut frame.events, e);
        self.call_stack.push(frame);
        proof {
            assert(old(self).call_stack@.last().model() == old(self).frames().last());
            assert(self.call_stack@ =~= old(self).call_stack@.update(n - 1, frame));
            assert(self.frames().drop_last() =~= old(self).frames().drop_last());
            assert(self.frames().last() == frame.model());
            assert(event_list(frame.events).drop_last() =~= before.events);
        }
        Ok(())
    }
}

/// The committed versions of a multi-account store.
pub struct VersionedMultiStore {
    versions: VersionList,
}

impl VersionedMultiStore {
    /// The stores of each committed version, oldest first.
    pub closed spec fn versions(&self) -> Seq<Map<u128, Map<Seq<u8>, Seq<u8>>>> {
        version_list(self.versions).map_values(|v: StoreVersion| v.0)
    }

    /// No version committed yet.
    pub fn new() -> (r: Self)
        ensures
            r.versions() == Seq::<Map<u128, Map<Seq<u8>, Seq<u8>>>>::empty(),
    {
        let r = VersionedMultiStore { versions: versions_new() };
        proof {
            assert(r.versions() =~= Seq::<Map<u128, Map<Seq<u8>, Seq<u8>>>>::empty());
        }
        r
    }

    /// A transaction with one frame, which starts from the latest version, or from no stores
    /// before any commit.
    pub fn new_transaction(&self) -> (r: Tx)
        ensures
            r.frames().len() == 1,
            r.frames()[0].events == Seq::<EventData>::empty(),
            r.frames()[0].accounts == if self.versions().len() > 0 {
                self.versions().last()
            } else {
                Map::<u128, Map<Seq<u8>, Seq<u8>>>::empty()
            },
    {
        let latest = match versions_last(&self.versions) {
            Some(m) => m,
            None => MultiStore::new(),
        };
        let frame = Frame { store: latest, events: events_new() };
        let mut call_stack: Vec<Frame> = Vec::new();
        call_stack.push(frame);
        let r = Tx { call_stack };
        proof {
            assert(r.frames()[0] == frame.model());
        }
        r
    }

    /// Commits a transaction that has exactly one frame left: its stores become the latest
    /// version, and its events are given back.
    pub fn commit(&mut self, tx: Tx) -> (r: Result<EventList, ()>)
        ensures
            tx.frames().len() != 1 ==> r is Err && final(self).versions() == old(self).versions(),
            tx.frames().len() == 1 ==> (r matches Ok(events) && event_list(events) == tx.frames()[0].events
                && final(self).versions() == old(self).versions().push(tx.frames()[0].accounts)),
    {
        if tx.call_stack.len() != 1 {
            return Err(());
        }
        let frame = &tx.call_stack[0];
        proof {
            assert(tx.frames()[0] == frame.model());
        }
        let store = frame.store.copy();
        versions_push_back(&mut self.versions, store);
        proof {
            assert(self.versions() =~= old(self).versions().push(tx.frames()[0].accounts));
        }
        Ok(events_clone(&frame.events))
    }
}

impl EventList {
    /// The events, oldest first.
    pub fn to_vec(&self) -> (r: Vec<EventData>)
        ensures
            r@ == event_list(*self),
    {
        events_to_vec(self)
    }
}

/// Whether the frames below the innermost one are as they were.
pub open spec fn only_top_changed(a: Seq<FrameModel>, b: Seq<FrameModel>) -> bool {
    a.len() == b.len() && a.len() > 0 && a.drop_last() == b.drop_last()
}

/// Rolling back a nested frame, whatever was done in it, leaves the frames as they were
/// before it was opened.
pub proof fn lemma_rollback_undoes_nested_frame(before: Seq<FrameModel>, after: Seq<FrameModel>)
    requires
        before.len() > 0,
        only_top_changed(
            before.push(FrameModel { accounts: before.last().accounts, events: Seq::empty() }),
            after,
        ),
    ensures
        after.drop_last() == before,
{
    assert(before.push(FrameModel { accounts: before.last().accounts, events: Seq::empty() }).drop_last() =~= before);
}

/// A read of a key in the innermost frame gives back what the last write of it there set.
pub proof fn lemma_read_own_write(
    accounts: Map<u128, Map<Seq<u8>, Seq<u8>>>,
    account: u128,
    key: Seq<u8>,
    value: Seq<u8>,
    other_account: u128,
    other_key: Seq<u8>,
)
    ensures
        read_key(write_key(accounts, account, key, value), account, key) == Some(value),
        (other_account, other_key) != (account, key) ==> read_key(
            write_key(accounts, account, key, value),
            other_account,
            other_key,
        ) == read_key(accounts, other_account, other_key),
{
}

} // verus!
