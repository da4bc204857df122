use vstd::prelude::*;
use vstd::string::StringSliceAdditionalSpecFns;

use crate::connection::{
    initialize_connection, is_reward_order, unlock_error, unlock_refusal, unlock_state, unlock_with_pin,
};
use crate::hashing::{derive_account_key, derived_key, keys_equal, sha256, sha256_of};
use crate::issuance::{
    lemma_new_window_grants_one_limit, mint_daily, mint_daily_result, mint_daily_state, new_user_account,
    starts_new_window,
};
use crate::state::{
    to_base_units, ConnectionAccount, ErrorCode, GlobalState, MintOrder, TransferOrder, UnlockOutcome,
    UserAccount,
    CONNECTION_MEMO_REWARD, DAILY_ME_LIMIT, DECIMAL_FACTOR, INITIAL_ME_MINT, MAX_ID_LEN,
};

verus! {

/// Namespace of user account keys.
pub const USER_SEED: [u8; 4] = [117, 115, 101, 114];

/// Namespace of personal mint keys.
pub const ME_MINT_SEED: [u8; 7] = [109, 101, 95, 109, 105, 110, 116];

/// Namespace of connection record keys.
pub const CONNECTION_SEED: [u8; 10] = [99, 111, 110, 110, 101, 99, 116, 105, 111, 110];

/// The key of the record of `id` in the namespace `tag`; `None` for an
/// identifier too long to own one.
pub open spec fn key_of(tag: Seq<u8>, id: Seq<u8>) -> Option<Seq<u8>> {
    if id.len() > MAX_ID_LEN {
        None
    } else {
        Some(derived_key(tag, id))
    }
}

/// The orders that lock personal tokens in escrow and mint the reward.
#[derive(Clone, Copy, Debug)]
pub struct LockOrders {
    /// Moves the locked amount from the user to the escrow account.
    pub transfer: TransferOrder,
    /// Mints the same amount of the reward token to the user.
    pub mint: MintOrder,
}

/// The records of the ledger.
pub ghost struct LedgerView {
    pub global: GlobalState,
    pub users: Seq<UserAccount>,
    pub connections: Seq<ConnectionAccount>,
}

/// The ledger: its singleton state and the records of users and
/// connections, each found by its derived key.
pub struct Ledger {
    global: GlobalState,
    users: Vec<UserAccount>,
    connections: Vec<ConnectionAccount>,
}

impl View for Ledger {
    type V = LedgerView;

    closed spec fn view(&self) -> LedgerView {
        LedgerView { global: self.global, users: self.users@, connections: self.connections@ }
    }
}

/// Whether a user record has the key `key`.
pub open spec fn has_user(v: LedgerView, key: Seq<u8>) -> bool {
    exists|i: int| 0 <= i < v.users.len() && #[trigger] v.users[i].key@ == key
}

/// The position of the user record with the key `key`.
pub open spec fn user_index(v: LedgerView, key: Seq<u8>) -> int {
    choose|i: int| 0 <= i < v.users.len() && #[trigger] v.users[i].key@ == key
}

/// Whether a connection record has the key `key`.
pub open spec fn has_connection(v: LedgerView, key: Seq<u8>) -> bool {
    exists|i: int| 0 <= i < v.connections.len() && #[trigger] v.connections[i].key@ == key
}

/// The position of the connection record with the key `key`.
pub open spec fn connection_index(v: LedgerView, key: Seq<u8>) -> int {
    choose|i: int| 0 <= i < v.connections.len() && #[trigger] v.connections[i].key@ == key
}

/// The quota used is within the daily limit, but for the initial grant,
/// which stands as the quota used until the registration's window ends.
pub open spec fn quota_in_bounds(a: UserAccount) -> bool {
    a.daily_minted_today <= DAILY_ME_LIMIT || a.daily_minted_today == INITIAL_ME_MINT
}

/// The invariant of the ledger: keys are unique, every quota used is
/// in bounds, and each connection joins two distinct
/// registered users.
pub open spec fn ledger_wf(v: LedgerView) -> bool {
    &&& forall|i: int, j: int|
        0 <= i < j < v.users.len() ==> #[trigger] v.users[i].key@ != #[trigger] v.users[j].key@
    &&& forall|i: int| 0 <= i < v.users.len() ==> quota_in_bounds(#[trigger] v.users[i])
    &&& forall|i: int, j: int|
        0 <= i < j < v.connections.len() ==> #[trigger] v.connections[i].key@
            != #[trigger] v.connections[j].key@
    &&& forall|i: int|
        0 <= i < v.connections.len() ==> has_user(v, #[trigger] v.connections[i].user_a@)
            && has_user(v, v.connections[i].user_b@) && v.connections[i].user_a@
            != v.connections[i].user_b@
}

/// No record disappears or changes its key, and no counter decreases.
pub open spec fn counters_grow(a: LedgerView, b: LedgerView) -> bool {
    &&& a.users.len() <= b.users.len()
    &&& a.connections.len() <= b.connections.len()
    &&& a.global.total_users <= b.global.total_users
    &&& a.global.total_connections <= b.global.total_connections
    &&& forall|i: int|
        0 <= i < a.users.len() ==> {
            let (x, y) = (#[trigger] a.users[i], b.users[i]);
            &&& y.key == x.key
            &&& x.total_me_minted <= y.total_me_minted
            &&& x.total_me_locked <= y.total_me_locked
            &&& x.total_memo_earned <= y.total_memo_earned
            &&& x.connections_count <= y.connections_count
        }
    &&& forall|i: int|
        0 <= i < a.connections.len() ==> {
            let (x, y) = (#[trigger] a.connections[i], b.connections[i]);
            &&& y.key == x.key
            &&& x.user_a_unlocked ==> y.user_a_unlocked
            &&& x.user_b_unlocked ==> y.user_b_unlocked
        }
}

/// Counters never decrease across any sequence of operations: growth
/// between consecutive states composes.
pub proof fn lemma_counters_grow_compose(a: LedgerView, b: LedgerView, c: LedgerView)
    requires
        counters_grow(a, b),
        counters_grow(b, c),
    ensures
        counters_grow(a, c),
{
    assert forall|i: int| 0 <= i < a.users.len() implies {
        let (x, y) = (#[trigger] a.users[i], c.users[i]);
        &&& y.key == x.key
        &&& x.total_me_minted <= y.total_me_minted
        &&& x.total_me_locked <= y.total_me_locked
        &&& x.total_memo_earned <= y.total_memo_earned
        &&& x.connections_count <= y.connections_count
    } by {
        let _ = b.users[i];
    }
    assert forall|i: int| 0 <= i < a.connections.len() implies {
        let (x, y) = (#[trigger] a.connections[i], c.connections[i]);
        &&& y.key == x.key
        &&& x.user_a_unlocked ==> y.user_a_unlocked
        &&& x.user_b_unlocked ==> y.user_b_unlocked
    } by {
        let _ = b.connections[i];
    }
}

/// A state never loses ground to itself.
pub proof fn lemma_counters_grow_refl(a: LedgerView)
    ensures
        counters_grow(a, a),
{
}

/// The user record with the key `key`.
pub open spec fn user_at(v: LedgerView, key: Seq<u8>) -> UserAccount {
    v.users[user_index(v, key)]
}

/// The connection record with the key `key`.
pub open spec fn connection_at(v: LedgerView, key: Seq<u8>) -> ConnectionAccount {
    v.connections[connection_index(v, key)]
}

/// Why registering `id` is refused, if it is.
pub open spec fn register_error(v: LedgerView, id: Seq<u8>) -> Option<ErrorCode> {
    if id.len() > MAX_ID_LEN {
        Some(ErrorCode::UserIdTooLong)
    } else if has_user(v, derived_key(USER_SEED@, id)) {
        Some(ErrorCode::DuplicateRegistration)
    } else {
        None
    }
}

/// Why registering `id` and counting it among the users is refused, if it
/// is.
pub open spec fn initialize_user_error(v: LedgerView, id: Seq<u8>) -> Option<ErrorCode> {
    if v.global.total_users == u64::MAX {
        Some(ErrorCode::Overflow)
    } else {
        register_error(v, id)
    }
}

/// Whether `a` is the record that registering `id` at `now` creates.
pub open spec fn is_new_registration(a: UserAccount, id: Seq<u8>, now: i64) -> bool {
    &&& a.key@ == derived_key(USER_SEED@, id)
    &&& a.user_id@ == id
    &&& a.me_mint@ == derived_key(ME_MINT_SEED@, id)
    &&& a.last_mint_time == now
    &&& a.daily_minted_today == INITIAL_ME_MINT
    &&& a.total_me_minted == INITIAL_ME_MINT
    &&& a.total_me_locked == 0
    &&& a.total_memo_earned == 0
    &&& a.connections_count == 0
}

/// Why a daily mint for `id` at `now` is refused, if it is.
pub open spec fn mint_daily_error(v: LedgerView, id: Seq<u8>, now: i64) -> Option<ErrorCode> {
    if id.len() > MAX_ID_LEN {
        Some(ErrorCode::UserIdTooLong)
    } else if !has_user(v, derived_key(USER_SEED@, id)) {
        Some(ErrorCode::AccountNotFound)
    } else {
        match mint_daily_result(user_at(v, derived_key(USER_SEED@, id)), now) {
            Ok(_) => None,
            Err(e) => Some(e),
        }
    }
}

/// Why locking `amount` whole tokens of `id`, which holds `balance` base
/// units of its personal token, is refused, if it is.
pub open spec fn lock_error(v: LedgerView, id: Seq<u8>, amount: u64, balance: u64) -> Option<ErrorCode> {
    let key = derived_key(USER_SEED@, id);
    if amount == 0 {
        Some(ErrorCode::InvalidAmount)
    } else if id.len() > MAX_ID_LEN {
        Some(ErrorCode::UserIdTooLong)
    } else if !has_user(v, key) {
        Some(ErrorCode::AccountNotFound)
    } else if balance < amount * DECIMAL_FACTOR {
        Some(ErrorCode::InsufficientBalance)
    } else if user_at(v, key).total_me_locked + amount > u64::MAX || user_at(v, key).total_memo_earned
        + amount > u64::MAX {
        Some(ErrorCode::Overflow)
    } else {
        None
    }
}

/// Why creating the connection `cid` between `ida` and `idb` is refused,
/// if it is.
pub open spec fn create_connection_error(v: LedgerView, cid: Seq<u8>, ida: Seq<u8>, idb: Seq<u8>) -> Option<
    ErrorCode,
> {
    if cid.len() > MAX_ID_LEN {
        Some(ErrorCode::ConnectionIdTooLong)
    } else if ida.len() > MAX_ID_LEN || idb.len() > MAX_ID_LEN {
        Some(ErrorCode::UserIdTooLong)
    } else if derived_key(USER_SEED@, ida) == derived_key(USER_SEED@, idb) {
        Some(ErrorCode::SameUserConnection)
    } else if !has_user(v, derived_key(USER_SEED@, ida)) || !has_user(v, derived_key(USER_SEED@, idb)) {
        Some(ErrorCode::AccountNotFound)
    } else if has_connection(v, derived_key(CONNECTION_SEED@, cid)) {
        Some(ErrorCode::DuplicateConnection)
    } else if v.global.total_connections == u64::MAX {
        Some(ErrorCode::Overflow)
    } else {
        None
    }
}

/// Why an unlock of the connection `cid` by `caller_id`, revealing `pin`,
/// is refused, if it is.
pub open spec fn unlock_connection_error(v: LedgerView, cid: Seq<u8>, caller_id: Seq<u8>, pin: Seq<u8>) -> Option<
    ErrorCode,
> {
    let ckey = derived_key(CONNECTION_SEED@, cid);
    let ukey = derived_key(USER_SEED@, caller_id);
    if cid.len() > MAX_ID_LEN || !has_connection(v, ckey) {
        Some(ErrorCode::ConnectionNotFound)
    } else if caller_id.len() > MAX_ID_LEN || !has_user(v, ukey) {
        Some(ErrorCode::UnauthorizedUser)
    } else if unlock_error(connection_at(v, ckey), ukey, sha256_of(pin)) is Some {
        unlock_error(connection_at(v, ckey), ukey, sha256_of(pin))
    } else if user_at(v, ukey).total_memo_earned + CONNECTION_MEMO_REWARD > u64::MAX || user_at(
        v,
        ukey,
    ).connections_count == u64::MAX {
        Some(ErrorCode::Overflow)
    } else {
        None
    }
}

impl Ledger {
    /// The position of the user record with the key `key`, if any.
    fn find_user(&self, key: &[u8; 32]) -> (r: Option<usize>)
        requires
            ledger_wf(self@),
        ensures
            r matches Some(i) ==> i < self@.users.len() && self@.users[i as int].key@ == key@ && i
                == user_index(self@, key@),
            r is None ==> !has_user(self@, key@),
    {
        let mut i: usize = 0;
        while i < self.users.len()
            invariant
                0 <= i <= self.users@.len(),
                ledger_wf(self@),
                forall|j: int| 0 <= j < i ==> #[trigger] self@.users[j].key@ != key@,
            decreases self.users@.len() - i,
        {
            if keys_equal(&self.users[i].key, key) {
                assert(self@.users[i as int].key@ == key@);
                assert(has_user(self@, key@));
                let ghost j = user_index(self@, key@);
                assert(self@.users[j].key@ == key@);
                assert(j == i as int) by {
                    if j < i as int {
                        assert(self@.users[j].key@ != self@.users[i as int].key@);
                    } else if j > i as int {
                        assert(self@.users[i as int].key@ != self@.users[j].key@);
                    }
                }
                return Some(i);
            }
            i = i + 1;
        }
        None
    }

    /// The position of the connection record with the key `key`, if any.
    fn find_connection(&self, key: &[u8; 32]) -> (r: Option<usize>)
        requires
            ledger_wf(self@),
        ensures
            r matches Some(i) ==> i < self@.connections.len() && self@.connections[i as int].key@
                == key@ && i == connection_index(self@, key@),
            r is None ==> !has_connection(self@, key@),
    {
        let mut i: usize = 0;
        while i < self.connections.len()
            invariant
                0 <= i <= self.connections@.len(),
                ledger_wf(self@),
                forall|j: int| 0 <= j < i ==> #[trigger] self@.connections[j].key@ != key@,
            decreases self.connections@.len() - i,
        {
            if keys_equal(&self.connections[i].key, key) {
                assert(self@.connections[i as int].key@ == key@);
                assert(has_connection(self@, key@));
                let ghost j = connection_index(self@, key@);
                assert(self@.connections[j].key@ == key@);
                assert(j == i as int) by {
                    if j < i as int {
                        assert(self@.connections[j].key@ != self@.connections[i as int].key@);
                    } else if j > i as int {
                        assert(self@.connections[i as int].key@ != self@.connections[j].key@);
                    }
                }
                return Some(i);
            }
            i = i + 1;
        }
        None
    }

    /// Creates the ledger, with no users or connections, around the reward
    /// mint, the escrow account and the administrator.
    pub fn initialize_global(memo_mint: [u8; 32], me_escrow: [u8; 32], admin: [u8; 32]) -> (r: Ledger)
        ensures
            ledger_wf(r@),
            r@.global == (GlobalState {
                memo_mint,
                me_escrow,
                admin,
                total_users: 0,
                total_connections: 0,
            }),
            r@.users.len() == 0,
            r@.connections.len() == 0,
    {
        Ledger {
            global: GlobalState { memo_mint, me_escrow, admin, total_users: 0, total_connections: 0 },
            users: Vec::new(),
            connections: Vec::new(),
        }
    }

    /// Registers `user_id` at `now`: creates its record, holding the
    /// initial grant, and returns the order that mints the grant to it
    /// from its personal mint. An identity registers once.
    pub fn register_and_mint_initial(&mut self, user_id: &str, now: i64) -> (r: Result<
        MintOrder,
        ErrorCode,
    >)
        requires
            ledger_wf(old(self)@),
        ensures
            ledger_wf(final(self)@),
            counters_grow(old(self)@, final(self)@),
            match r {
                Err(e) => register_error(old(self)@, user_id.spec_bytes()) == Some(e) && final(self)@
                    == old(self)@,
                Ok(order) => {
                    &&& register_error(old(self)@, user_id.spec_bytes()) is None
                    &&& final(self)@.users.len() == old(self)@.users.len() + 1
                    &&& final(self)@.users.drop_last() == old(self)@.users
                    &&& is_new_registration(final(self)@.users.last(), user_id.spec_bytes(), now)
                    &&& final(self)@.connections == old(self)@.connections
                    &&& final(self)@.global == old(self)@.global
                    &&& order.mint@ == derived_key(ME_MINT_SEED@, user_id.spec_bytes())
                    &&& order.to@ == derived_key(USER_SEED@, user_id.spec_bytes())
                    &&& order.amount == INITIAL_ME_MINT * DECIMAL_FACTOR
                },
            },
    {
        let key = match derive_account_key(USER_SEED.as_slice(), user_id) {
            Ok(k) => k,
            Err(e) => {
                return Err(e);
            },
        };
        if self.find_user(&key).is_some() {
            return Err(ErrorCode::DuplicateRegistration);
        }
        let me_mint = match derive_account_key(ME_MINT_SEED.as_slice(), user_id) {
            Ok(k) => k,
            Err(e) => {
                return Err(e);
            },
        };
        let account = match new_user_account(key, user_id, me_mint, now) {
            Ok(a) => a,
            Err(e) => {
                return Err(e);
            },
        };
        let ghost before = self@;
        self.users.push(account);
        proof {
            lemma_push_user_keeps_wf(before, self@.users.last(), self@.global);
            assert(self@.users.drop_last() =~= before.users);
            assert(self@.users =~= before.users.push(self@.users.last()));
        }
        Ok(MintOrder { mint: me_mint, to: key, amount: INITIAL_ME_MINT * DECIMAL_FACTOR })
    }

    /// Registers `user_id` at `now` as `register_and_mint_initial` does,
    /// and counts it among the ledger's users.
    pub fn initialize_user(&mut self, user_id: &str, now: i64) -> (r: Result<MintOrder, ErrorCode>)
        requires
            ledger_wf(old(self)@),
        ensures
            ledger_wf(final(self)@),
            counters_grow(old(self)@, final(self)@),
            match r {
                Err(e) => initialize_user_error(old(self)@, user_id.spec_bytes()) == Some(e)
                    && final(self)@ == old(self)@,
                Ok(order) => {
                    &&& initialize_user_error(old(self)@, user_id.spec_bytes()) is None
                    &&& final(self)@.users.len() == old(self)@.users.len() + 1
                    &&& final(self)@.users.drop_last() == old(self)@.users
                    &&& is_new_registration(final(self)@.users.last(), user_id.spec_bytes(), now)
                    &&& final(self)@.connections == old(self)@.connections
                    &&& final(self)@.global == (GlobalState {
                        total_users: (old(self)@.global.total_users + 1) as u64,
                        ..old(self)@.global
                    })
                    &&& order.mint@ == derived_key(ME_MINT_SEED@, user_id.spec_bytes())
                    &&& order.to@ == derived_key(USER_SEED@, user_id.spec_bytes())
                    &&& order.amount == INITIAL_ME_MINT * DECIMAL_FACTOR
                },
            },
    {
        if self.global.total_users == u64::MAX {
            return Err(ErrorCode::Overflow);
        }
        let ghost before = self@;
        let order = match self.register_and_mint_initial(user_id, now) {
            Ok(o) => o,
            Err(e) => {
                return Err(e);
            },
        };
        let ghost mid = self@;
        self.global.total_users = self.global.total_users + 1;
        proof {
            lemma_counters_grow_compose(before, mid, self@);
        }
        Ok(order)
    }

    /// Issues the remaining daily quota of `user_id` at `now`, and returns
    /// the order that mints it from the user's personal mint.
    pub fn mint_daily_me(&mut self, user_id: &str, now: i64) -> (r: Result<MintOrder, ErrorCode>)
        requires
            ledger_wf(old(self)@),
        ensures
            ledger_wf(final(self)@),
            counters_grow(old(self)@, final(self)@),
            match r {
                Err(e) => mint_daily_error(old(self)@, user_id.spec_bytes(), now) == Some(e)
                    && final(self)@ == old(self)@,
                Ok(order) => {
                    let key = derived_key(USER_SEED@, user_id.spec_bytes());
                    let a = user_at(old(self)@, key);
                    &&& mint_daily_error(old(self)@, user_id.spec_bytes(), now) is None
                    &&& final(self)@.users == old(self)@.users.update(
                        user_index(old(self)@, key),
                        mint_daily_state(a, now),
                    )
                    &&& final(self)@.connections == old(self)@.connections
                    &&& final(self)@.global == old(self)@.global
                    &&& mint_daily_result(a, now) matches Ok(minted) && order.amount == minted
                        * DECIMAL_FACTOR
                    &&& order.mint == a.me_mint
                    &&& order.to == a.key
                },
            },
    {
        let key = match derive_account_key(USER_SEED.as_slice(), user_id) {
            Ok(k) => k,
            Err(e) => {
                return Err(e);
            },
        };
        let i = match self.find_user(&key) {
            Some(i) => i,
            None => {
                return Err(ErrorCode::AccountNotFound);
            },
        };
        let ghost before = self@;
        let mut account = self.users.remove(i);
        let result = mint_daily(&mut account, now);
        let mint = account.me_mint;
        self.users.insert(i, account);
        proof {
            assert(self@.users =~= before.users.update(i as int, mint_daily_state(before.users[i as int], now)));
        }
        match result {
            Ok(minted) => {
                proof {
                    lemma_update_keeps_wf(before, i as int, mint_daily_state(before.users[i as int], now));
                }
                Ok(MintOrder { mint, to: key, amount: minted * DECIMAL_FACTOR })
            },
            Err(e) => {
                proof {
                    assert(self@.users =~= before.users);
                }
                Err(e)
            },
        }
    }

    /// The singleton state of the ledger.
    pub fn global(&self) -> (r: &GlobalState)
        ensures
            *r == self@.global,
    {
        &self.global
    }

    /// The record of `user_id`, if it is registered.
    pub fn user(&self, user_id: &str) -> (r: Option<&UserAccount>)
        requires
            ledger_wf(self@),
        ensures
            match key_of(USER_SEED@, user_id.spec_bytes()) {
                Some(k) => if has_user(self@, k) {
                    r matches Some(a) && *a == user_at(self@, k)
                } else {
                    r is None
                },
                None => r is None,
            },
    {
        let key = match derive_account_key(USER_SEED.as_slice(), user_id) {
            Ok(k) => k,
            Err(_) => {
                return None;
            },
        };
        match self.find_user(&key) {
            Some(i) => Some(&self.users[i]),
            None => None,
        }
    }

    /// The record of the connection `connection_id`, if it exists.
    pub fn connection(&self, connection_id: &str) -> (r: Option<&ConnectionAccount>)
        requires
            ledger_wf(self@),
        ensures
            match key_of(CONNECTION_SEED@, connection_id.spec_bytes()) {
                Some(k) => if has_connection(self@, k) {
                    r matches Some(c) && *c == connection_at(self@, k)
                } else {
                    r is None
                },
                None => r is None,
            },
    {
        let key = match derive_account_key(CONNECTION_SEED.as_slice(), connection_id) {
            Ok(k) => k,
            Err(_) => {
                return None;
            },
        };
        match self.find_connection(&key) {
            Some(i) => Some(&self.connections[i]),
            None => None,
        }
    }

    /// Locks `amount` whole personal tokens of `user_id`, which holds
    /// `balance` base units of them, in escrow, and mints as many reward
    /// tokens to it.
    pub fn lock_me_for_memo(&mut self, user_id: &str, amount: u64, balance: u64) -> (r: Result<
        LockOrders,
        ErrorCode,
    >)
        requires
            ledger_wf(old(self)@),
        ensures
            ledger_wf(final(self)@),
            counters_grow(old(self)@, final(self)@),
            match r {
                Err(e) => lock_error(old(self)@, user_id.spec_bytes(), amount, balance) == Some(e)
                    && final(self)@ == old(self)@,
                Ok(orders) => {
                    let key = derived_key(USER_SEED@, user_id.spec_bytes());
                    let a = user_at(old(self)@, key);
                    let g = old(self)@.global;
                    &&& lock_error(old(self)@, user_id.spec_bytes(), amount, balance) is None
                    &&& final(self)@.users == old(self)@.users.update(
                        user_index(old(self)@, key),
                        UserAccount {
                            total_me_locked: (a.total_me_locked + amount) as u64,
                            total_memo_earned: (a.total_memo_earned + amount) as u64,
                            ..a
                        },
                    )
                    &&& final(self)@.connections == old(self)@.connections
                    &&& final(self)@.global == g
                    &&& orders.transfer.from == a.key && orders.transfer.to == g.me_escrow
                    &&& orders.transfer.amount == amount * DECIMAL_FACTOR
                    &&& orders.mint.mint == g.memo_mint && orders.mint.to == a.key
                    &&& orders.mint.amount == amount * DECIMAL_FACTOR
                },
            },
    {
        if amount == 0 {
            return Err(ErrorCode::InvalidAmount);
        }
        let key = match derive_account_key(USER_SEED.as_slice(), user_id) {
            Ok(k) => k,
            Err(e) => {
                return Err(e);
            },
        };
        let i = match self.find_user(&key) {
            Some(i) => i,
            None => {
                return Err(ErrorCode::AccountNotFound);
            },
        };
        let units = match to_base_units(amount) {
            Some(u) => u,
            None => {
                return Err(ErrorCode::InsufficientBalance);
            },
        };
        if balance < units {
            return Err(ErrorCode::InsufficientBalance);
        }
        let locked = match self.users[i].total_me_locked.checked_add(amount) {
            Some(t) => t,
            None => {
                return Err(ErrorCode::Overflow);
            },
        };
        let earned = match self.users[i].total_memo_earned.checked_add(amount) {
            Some(t) => t,
            None => {
                return Err(ErrorCode::Overflow);
            },
        };
        let ghost before = self@;
        let mut account = self.users.remove(i);
        account.total_me_locked = locked;
        account.total_memo_earned = earned;
        self.users.insert(i, account);
        proof {
            let a = before.users[i as int];
            let b = UserAccount { total_me_locked: locked, total_memo_earned: earned, ..a };
            assert(self@.users =~= before.users.update(i as int, b));
            lemma_update_keeps_wf(before, i as int, b);
        }
        Ok(
            LockOrders {
                transfer: TransferOrder { from: key, to: self.global.me_escrow, amount: units },
                mint: MintOrder { mint: self.global.memo_mint, to: key, amount: units },
            },
        )
    }

    /// Creates the connection `connection_id` between the registered users
    /// `user_a_id` and `user_b_id`, with the commitments to A's and B's
    /// secrets, neither side unlocked.
    pub fn create_connection(
        &mut self,
        connection_id: &str,
        user_a_id: &str,
        user_b_id: &str,
        pin_a_hash: [u8; 32],
        pin_b_hash: [u8; 32],
        now: i64,
    ) -> (r: Result<(), ErrorCode>)
        requires
            ledger_wf(old(self)@),
        ensures
            ledger_wf(final(self)@),
            counters_grow(old(self)@, final(self)@),
            match r {
                Err(e) => create_connection_error(
                    old(self)@,
                    connection_id.spec_bytes(),
                    user_a_id.spec_bytes(),
                    user_b_id.spec_bytes(),
                ) == Some(e) && final(self)@ == old(self)@,
                Ok(_) => {
                    let c = final(self)@.connections.last();
                    &&& create_connection_error(
                        old(self)@,
                        connection_id.spec_bytes(),
                        user_a_id.spec_bytes(),
                        user_b_id.spec_bytes(),
                    ) is None
                    &&& final(self)@.connections.len() == old(self)@.connections.len() + 1
                    &&& final(self)@.connections.drop_last() == old(self)@.connections
                    &&& c.key@ == derived_key(CONNECTION_SEED@, connection_id.spec_bytes())
                    &&& c.connection_id@ == connection_id.spec_bytes()
                    &&& c.user_a@ == derived_key(USER_SEED@, user_a_id.spec_bytes())
                    &&& c.user_b@ == derived_key(USER_SEED@, user_b_id.spec_bytes())
                    &&& c.pin_a_hash == pin_a_hash && c.pin_b_hash == pin_b_hash
                    &&& !c.user_a_unlocked && !c.user_b_unlocked && c.created_at == now
                    &&& final(self)@.users == old(self)@.users
                    &&& final(self)@.global == (GlobalState {
                        total_connections: (old(self)@.global.total_connections + 1) as u64,
                        ..old(self)@.global
                    })
                },
            },
    {
        if connection_id.as_bytes().len() > MAX_ID_LEN {
            return Err(ErrorCode::ConnectionIdTooLong);
        }
        let key_a = match derive_account_key(USER_SEED.as_slice(), user_a_id) {
            Ok(k) => k,
            Err(e) => {
                return Err(e);
            },
        };
        let key_b = match derive_account_key(USER_SEED.as_slice(), user_b_id) {
            Ok(k) => k,
            Err(e) => {
                return Err(e);
            },
        };
        if keys_equal(&key_a, &key_b) {
            return Err(ErrorCode::SameUserConnection);
        }
        if self.find_user(&key_a).is_none() || self.find_user(&key_b).is_none() {
            return Err(ErrorCode::AccountNotFound);
        }
        let key = match derive_account_key(CONNECTION_SEED.as_slice(), connection_id) {
            Ok(k) => k,
            Err(_) => {
                return Err(ErrorCode::ConnectionIdTooLong);
            },
        };
        if self.find_connection(&key).is_some() {
            return Err(ErrorCode::DuplicateConnection);
        }
        if self.global.total_connections == u64::MAX {
            return Err(ErrorCode::Overflow);
        }
        let c = match initialize_connection(key, connection_id, key_a, key_b, pin_a_hash, pin_b_hash, now) {
            Ok(c) => c,
            Err(e) => {
                return Err(e);
            },
        };
        let ghost before = self@;
        self.connections.push(c);
        self.global.total_connections = self.global.total_connections + 1;
        proof {
            assert(self@.connections.drop_last() =~= before.connections);
            assert(self@.users == before.users);
            assert forall|i: int, j: int| 0 <= i < j < self@.connections.len() implies #[trigger] self@.connections[i].key@
                != #[trigger] self@.connections[j].key@ by {
                assert(self@.connections[i] == before.connections[i]);
                if j < before.connections.len() {
                    assert(self@.connections[j] == before.connections[j]);
                } else {
                    assert(self@.connections[j].key@ == key@);
                    assert(before.connections[i].key@ != key@);
                }
            }
            assert forall|i: int| 0 <= i < self@.connections.len() implies has_user(
                self@,
                #[trigger] self@.connections[i].user_a@,
            ) && has_user(self@, self@.connections[i].user_b@) && self@.connections[i].user_a@
                != self@.connections[i].user_b@ by {
                if i < before.connections.len() {
                    assert(self@.connections[i] == before.connections[i]);
                    assert(has_user(before, before.connections[i].user_a@));
                }
            }
            assert forall|i: int| 0 <= i < self@.users.len() implies quota_in_bounds(#[trigger] self@.users[i]) by {
                assert(self@.users[i] == before.users[i]);
            }
        }
        Ok(())
    }

    /// Unlocks the side of `caller_id` in the connection `connection_id`,
    /// given the secret `pin` that the caller received from the other
    /// party, and returns the reward orders: one to the caller, and a bonus
    /// to `beneficiary` once both sides are unlocked.
    pub fn unlock_connection(
        &mut self,
        connection_id: &str,
        caller_id: &str,
        pin: &[u8],
        beneficiary: [u8; 32],
    ) -> (r: Result<UnlockOutcome, ErrorCode>)
        requires
            ledger_wf(old(self)@),
        ensures
            ledger_wf(final(self)@),
            counters_grow(old(self)@, final(self)@),
            match r {
                Err(e) => unlock_connection_error(
                    old(self)@,
                    connection_id.spec_bytes(),
                    caller_id.spec_bytes(),
                    pin@,
                ) == Some(e) && final(self)@ == old(self)@,
                Ok(out) => {
                    let ckey = derived_key(CONNECTION_SEED@, connection_id.spec_bytes());
                    let ukey = derived_key(USER_SEED@, caller_id.spec_bytes());
                    let c = connection_at(old(self)@, ckey);
                    let a = user_at(old(self)@, ukey);
                    let c2 = unlock_state(c, ukey, sha256_of(pin@));
                    let g = old(self)@.global;
                    &&& unlock_connection_error(
                        old(self)@,
                        connection_id.spec_bytes(),
                        caller_id.spec_bytes(),
                        pin@,
                    ) is None
                    &&& final(self)@.connections == old(self)@.connections.update(
                        connection_index(old(self)@, ckey),
                        c2,
                    )
                    &&& final(self)@.users == old(self)@.users.update(
                        user_index(old(self)@, ukey),
                        UserAccount {
                            total_memo_earned: (a.total_memo_earned + CONNECTION_MEMO_REWARD) as u64,
                            connections_count: (a.connections_count + 1) as u64,
                            ..a
                        },
                    )
                    &&& final(self)@.global == g
                    &&& out.caller_unlocked
                    &&& out.both_complete == c2.spec_is_complete()
                    &&& is_reward_order(out.reward, g.memo_mint, a.key)
                    &&& (out.bonus is Some) == (!c.spec_is_complete() && c2.spec_is_complete())
                    &&& out.bonus matches Some(b) ==> is_reward_order(b, g.memo_mint, beneficiary)
                },
            },
    {
        if connection_id.as_bytes().len() > MAX_ID_LEN {
            return Err(ErrorCode::ConnectionNotFound);
        }
        let ckey = match derive_account_key(CONNECTION_SEED.as_slice(), connection_id) {
            Ok(k) => k,
            Err(_) => {
                return Err(ErrorCode::ConnectionNotFound);
            },
        };
        let ci = match self.find_connection(&ckey) {
            Some(ci) => ci,
            None => {
                return Err(ErrorCode::ConnectionNotFound);
            },
        };
        let ukey = match derive_account_key(USER_SEED.as_slice(), caller_id) {
            Ok(k) => k,
            Err(_) => {
                return Err(ErrorCode::UnauthorizedUser);
            },
        };
        let ui = match self.find_user(&ukey) {
            Some(ui) => ui,
            None => {
                return Err(ErrorCode::UnauthorizedUser);
            },
        };
        let pin_hash = sha256(pin);
        if let Some(e) = unlock_refusal(&self.connections[ci], &ukey, &pin_hash) {
            return Err(e);
        }
        let earned = match self.users[ui].total_memo_earned.checked_add(CONNECTION_MEMO_REWARD) {
            Some(t) => t,
            None => {
                return Err(ErrorCode::Overflow);
            },
        };
        let count = match self.users[ui].connections_count.checked_add(1) {
            Some(t) => t,
            None => {
                return Err(ErrorCode::Overflow);
            },
        };
        let ghost before = self@;
        let memo_mint = self.global.memo_mint;
        let mut conn = self.connections.remove(ci);
        let result = unlock_with_pin(&mut conn, &ukey, &pin_hash, memo_mint, beneficiary);
        self.connections.insert(ci, conn);
        proof {
            assert(self@.connections =~= before.connections.update(
                ci as int,
                unlock_state(before.connections[ci as int], ukey@, pin_hash@),
            ));
        }
        let out = match result {
            Ok(out) => out,
            Err(e) => {
                proof {
                    assert(self@.connections =~= before.connections);
                }
                return Err(e);
            },
        };
        let ghost mid = self@;
        proof {
            lemma_connection_update_keeps_wf(
                before,
                ci as int,
                unlock_state(before.connections[ci as int], ukey@, pin_hash@),
            );
        }
        let mut account = self.users.remove(ui);
        account.total_memo_earned = earned;
        account.connections_count = count;
        self.users.insert(ui, account);
        proof {
            let a = mid.users[ui as int];
            let b = UserAccount { total_memo_earned: earned, connections_count: count, ..a };
            assert(self@.users =~= mid.users.update(ui as int, b));
            lemma_update_keeps_wf(mid, ui as int, b);
            lemma_counters_grow_compose(before, mid, self@);
        }
        proof {
            let k = before.users[ui as int].key;
            assert forall|j: int| 0 <= j < 32 implies ukey[j] == k[j] by {
                assert(ukey@[j] == k@[j]);
            }
            assert(ukey =~= k);
        }
        Ok(out)
    }
}

/// A daily mint for a registered identity in a new quota window succeeds
/// and grants the daily limit once, however many days have passed, leaving
/// exactly the limit as the quota used.
pub proof fn lemma_daily_mint_after_a_day(v: LedgerView, id: Seq<u8>, now: i64)
    requires
        ledger_wf(v),
        id.len() <= MAX_ID_LEN,
        has_user(v, derived_key(USER_SEED@, id)),
        starts_new_window(user_at(v, derived_key(USER_SEED@, id)).last_mint_time, now),
        user_at(v, derived_key(USER_SEED@, id)).total_me_minted + DAILY_ME_LIMIT <= u64::MAX,
    ensures
        mint_daily_error(v, id, now) is None,
        mint_daily_result(user_at(v, derived_key(USER_SEED@, id)), now) == Ok::<u64, ErrorCode>(
            DAILY_ME_LIMIT,
        ),
        mint_daily_state(user_at(v, derived_key(USER_SEED@, id)), now).daily_minted_today
            == DAILY_ME_LIMIT,
        mint_daily_state(user_at(v, derived_key(USER_SEED@, id)), now).last_mint_time == now,
        mint_daily_state(user_at(v, derived_key(USER_SEED@, id)), now).total_me_minted == user_at(
            v,
            derived_key(USER_SEED@, id),
        ).total_me_minted + DAILY_ME_LIMIT,
{
    lemma_new_window_grants_one_limit(user_at(v, derived_key(USER_SEED@, id)), now);
}

/// Adding a user record, with a fresh key and its quota in bounds, keeps
/// the invariant and lets counters grow.
proof fn lemma_push_user_keeps_wf(v: LedgerView, a: UserAccount, g: GlobalState)
    requires
        ledger_wf(v),
        !has_user(v, a.key@),
        quota_in_bounds(a),
        g.total_users >= v.global.total_users,
        g.total_connections >= v.global.total_connections,
    ensures
        ledger_wf(LedgerView { global: g, users: v.users.push(a), ..v }),
        counters_grow(v, LedgerView { global: g, users: v.users.push(a), ..v }),
{
    let w = LedgerView { global: g, users: v.users.push(a), ..v };
    assert forall|i: int, j: int| 0 <= i < j < w.users.len() implies #[trigger] w.users[i].key@
        != #[trigger] w.users[j].key@ by {
        assert(w.users[i] == v.users[i]);
        if j < v.users.len() {
            assert(w.users[j] == v.users[j]);
        } else {
            assert(v.users[i].key@ != a.key@);
        }
    }
    assert forall|i: int| 0 <= i < w.users.len() implies quota_in_bounds(#[trigger] w.users[i]) by {
        if i < v.users.len() {
            assert(w.users[i] == v.users[i]);
        }
    }
    assert forall|k: int| 0 <= k < w.connections.len() implies has_user(
        w,
        #[trigger] w.connections[k].user_a@,
    ) && has_user(w, w.connections[k].user_b@) && w.connections[k].user_a@
        != w.connections[k].user_b@ by {
        let c = v.connections[k];
        assert(has_user(v, v.connections[k].user_a@));
        let ia = user_index(v, c.user_a@);
        let ib = user_index(v, c.user_b@);
        assert(w.users[ia] == v.users[ia]);
        assert(w.users[ib] == v.users[ib]);
    }
    assert forall|i: int, j: int| 0 <= i < j < w.connections.len() implies #[trigger] w.connections[i].key@
        != #[trigger] w.connections[j].key@ by {
        assert(v.connections[i].key@ != v.connections[j].key@);
    }
    assert forall|i: int| 0 <= i < v.users.len() implies {
        let (x, y) = (#[trigger] v.users[i], w.users[i]);
        &&& y.key == x.key
        &&& x.total_me_minted <= y.total_me_minted
        &&& x.total_me_locked <= y.total_me_locked
        &&& x.total_memo_earned <= y.total_memo_earned
        &&& x.connections_count <= y.connections_count
    } by {
        assert(w.users[i] == v.users[i]);
    }
}

/// Replacing a connection record by one with the same key and parties,
/// whose flags are no lower, keeps the invariant and lets counters grow.
proof fn lemma_connection_update_keeps_wf(v: LedgerView, i: int, c: ConnectionAccount)
    requires
        ledger_wf(v),
        0 <= i < v.connections.len(),
        c.key == v.connections[i].key,
        c.user_a == v.connections[i].user_a,
        c.user_b == v.connections[i].user_b,
        v.connections[i].user_a_unlocked ==> c.user_a_unlocked,
        v.connections[i].user_b_unlocked ==> c.user_b_unlocked,
    ensures
        ledger_wf(LedgerView { connections: v.connections.update(i, c), ..v }),
        counters_grow(v, LedgerView { connections: v.connections.update(i, c), ..v }),
{
    let w = LedgerView { connections: v.connections.update(i, c), ..v };
    assert forall|k: int| 0 <= k < w.connections.len() implies has_user(
        w,
        #[trigger] w.connections[k].user_a@,
    ) && has_user(w, w.connections[k].user_b@) && w.connections[k].user_a@
        != w.connections[k].user_b@ by {
        assert(w.users == v.users);
        assert(w.connections[k].user_a == v.connections[k].user_a);
        assert(w.connections[k].user_b == v.connections[k].user_b);
        assert(has_user(v, v.connections[k].user_a@));
    }
    assert forall|k: int, l: int| 0 <= k < l < w.connections.len() implies #[trigger] w.connections[k].key@
        != #[trigger] w.connections[l].key@ by {
        assert(v.connections[k].key@ != v.connections[l].key@);
    }
}

/// Replacing a user record by one with the same key, a quota in bounds
/// and no smaller counters keeps the invariant and lets counters grow.
proof fn lemma_update_keeps_wf(v: LedgerView, i: int, a: UserAccount)
    requires
        ledger_wf(v),
        0 <= i < v.users.len(),
        a.key == v.users[i].key,
        quota_in_bounds(a),
        v.users[i].total_me_minted <= a.total_me_minted,
        v.users[i].total_me_locked <= a.total_me_locked,
        v.users[i].total_memo_earned <= a.total_memo_earned,
        v.users[i].connections_count <= a.connections_count,
    ensures
        ledger_wf(LedgerView { users: v.users.update(i, a), ..v }),
        counters_grow(v, LedgerView { users: v.users.update(i, a), ..v }),
{
    let w = LedgerView { users: v.users.update(i, a), ..v };
    assert forall|k: int| 0 <= k < w.connections.len() implies has_user(
        w,
        #[trigger] w.connections[k].user_a@,
    ) && has_user(w, w.connections[k].user_b@) by {
        let c = v.connections[k];
        assert(w.connections[k] == c);
        assert(has_user(v, v.connections[k].user_a@));
        assert(has_user(v, c.user_b@));
        let ia = user_index(v, c.user_a@);
        let ib = user_index(v, c.user_b@);
        assert(w.users[ia].key@ == c.user_a@);
        assert(w.users[ib].key@ == c.user_b@);
    }
}

} // verus!
