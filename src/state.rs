use vstd::prelude::*;

verus! {

/// Whole tokens granted at registration.
pub const INITIAL_ME_MINT: u64 = 48;

/// Whole tokens that one identity may be issued per quota window.
pub const DAILY_ME_LIMIT: u64 = 24;

/// Length of the quota window in seconds.
pub const DAY_IN_SECONDS: i64 = 86400;

/// Reward-token amount minted to a party for each successful unlock,
/// and to the beneficiary when a connection completes.
pub const CONNECTION_MEMO_REWARD: u64 = 8;

/// Number of decimals of every token: balances are whole amounts
/// times `DECIMAL_FACTOR`.
pub const TOKEN_DECIMALS: u32 = 9;

/// `10` raised to `TOKEN_DECIMALS`.
pub const DECIMAL_FACTOR: u64 = 1_000_000_000;

/// Longest accepted identifier, in bytes.
pub const MAX_ID_LEN: usize = 64;

/// Why a request was rejected. A rejected request changes nothing.
#[derive(Clone, Copy, Debug, PartialEq, Eq, Structural)]
pub enum ErrorCode {
    DailyLimitReached,
    UserIdTooLong,
    ConnectionIdTooLong,
    InvalidAmount,
    InsufficientBalance,
    InvalidPin,
    UnauthorizedUser,
    AlreadyUnlocked,
    ConnectionFullyUnlocked,
    SameUserConnection,
    AccountNotFound,
    DuplicateRegistration,
    ConnectionNotFound,
    DuplicateConnection,
    Overflow,
}

impl ErrorCode {
    /// A human-readable description of the error.
    pub fn message(&self) -> (r: &'static str) {
        match self {
            ErrorCode::DailyLimitReached => "Daily minting limit of 24 ME reached. Try again tomorrow.",
            ErrorCode::UserIdTooLong => "User ID too long (max 64 bytes)",
            ErrorCode::ConnectionIdTooLong => "Connection ID too long (max 64 bytes)",
            ErrorCode::InvalidAmount => "Invalid amount - must be greater than 0",
            ErrorCode::InsufficientBalance => "Insufficient balance",
            ErrorCode::InvalidPin => "Invalid PIN",
            ErrorCode::UnauthorizedUser => "Unauthorized user for this connection",
            ErrorCode::AlreadyUnlocked => "Already unlocked",
            ErrorCode::ConnectionFullyUnlocked => "Connection already fully unlocked",
            ErrorCode::SameUserConnection => "Cannot create connection with same user",
            ErrorCode::AccountNotFound => "Account not found",
            ErrorCode::DuplicateRegistration => "Account already registered",
            ErrorCode::ConnectionNotFound => "Connection not found",
            ErrorCode::DuplicateConnection => "Connection already exists",
            ErrorCode::Overflow => "Arithmetic overflow",
        }
    }
}

/// An order to the token sub-ledger: mint `amount` base units of `mint`
/// to the holder `to`, signed by the ledger's own authority over `mint`.
#[derive(Clone, Copy, Debug)]
pub struct MintOrder {
    pub mint: [u8; 32],
    pub to: [u8; 32],
    pub amount: u64,
}

/// An order to the token sub-ledger: move `amount` base units from the
/// holder `from` to the account `to`.
#[derive(Clone, Copy, Debug)]
pub struct TransferOrder {
    pub from: [u8; 32],
    pub to: [u8; 32],
    pub amount: u64,
}

/// The outcome of a successful unlock.
#[derive(Clone, Copy, Debug)]
pub struct UnlockOutcome {
    /// The caller's side is now unlocked.
    pub caller_unlocked: bool,
    /// Both sides are now unlocked.
    pub both_complete: bool,
    /// Mints the unlock reward to the caller.
    pub reward: MintOrder,
    /// Mints the completion bonus to the beneficiary, once both sides are
    /// unlocked.
    pub bonus: Option<MintOrder>,
}

/// Converts whole tokens to base units; `None` where the result would not
/// fit in a `u64`.
pub fn to_base_units(amount: u64) -> (r: Option<u64>)
    ensures
        amount * DECIMAL_FACTOR <= u64::MAX ==> r == Some((amount * DECIMAL_FACTOR) as u64),
        amount * DECIMAL_FACTOR > u64::MAX ==> r is None,
{
    amount.checked_mul(DECIMAL_FACTOR)
}

/// The singleton record of the ledger.
#[derive(Clone, Debug)]
pub struct GlobalState {
    pub memo_mint: [u8; 32],
    pub me_escrow: [u8; 32],
    pub admin: [u8; 32],
    pub total_users: u64,
    pub total_connections: u64,
}

/// The record of one registered identity.
#[derive(Clone, Debug)]
pub struct UserAccount {
    /// Derived key under which the record is found.
    pub key: [u8; 32],
    /// The identifier the record was registered with.
    pub user_id: Vec<u8>,
    /// The identity's personal token mint.
    pub me_mint: [u8; 32],
    pub last_mint_time: i64,
    pub daily_minted_today: u64,
    pub total_me_minted: u64,
    pub total_me_locked: u64,
    pub total_memo_earned: u64,
    pub connections_count: u64,
}

/// The record of one connection between two identities.
#[derive(Clone, Debug)]
pub struct ConnectionAccount {
    /// Derived key under which the record is found.
    pub key: [u8; 32],
    pub connection_id: Vec<u8>,
    /// Account key of party A.
    pub user_a: [u8; 32],
    /// Account key of party B.
    pub user_b: [u8; 32],
    /// Commitment to A's secret, revealed by B.
    pub pin_a_hash: [u8; 32],
    /// Commitment to B's secret, revealed by A.
    pub pin_b_hash: [u8; 32],
    pub user_a_unlocked: bool,
    pub user_b_unlocked: bool,
    pub created_at: i64,
}

impl ConnectionAccount {
    /// Whether both parties have unlocked.
    pub open spec fn spec_is_complete(&self) -> bool {
        self.user_a_unlocked && self.user_b_unlocked
    }

    /// Whether both parties have unlocked.
    #[verifier::when_used_as_spec(spec_is_complete)]
    pub fn is_complete(&self) -> (r: bool)
        ensures
            r == self.spec_is_complete(),
    {
        self.user_a_unlocked && self.user_b_unlocked
    }
}

} // verus!
