use vstd::prelude::*;
use vstd::string::StringSliceAdditionalSpecFns;

use crate::hashing::keys_equal;
use crate::state::{
    ConnectionAccount, ErrorCode, MintOrder, UnlockOutcome, CONNECTION_MEMO_REWARD, DECIMAL_FACTOR,
    MAX_ID_LEN,
};

verus! {

/// Whether `caller` is one of the two parties of `c`.
pub open spec fn is_party(c: ConnectionAccount, caller: Seq<u8>) -> bool {
    caller == c.user_a@ || caller == c.user_b@
}

/// The commitment that `caller` must open: a party proves it received the
/// other party's secret, so A opens B's commitment and B opens A's.
pub open spec fn commitment_for(c: ConnectionAccount, caller: Seq<u8>) -> Seq<u8> {
    if caller == c.user_a@ {
        c.pin_b_hash@
    } else {
        c.pin_a_hash@
    }
}

/// Whether `caller` has already unlocked its side of `c`.
pub open spec fn has_unlocked(c: ConnectionAccount, caller: Seq<u8>) -> bool {
    if caller == c.user_a@ {
        c.user_a_unlocked
    } else {
        c.user_b_unlocked
    }
}

/// Whether the side opposite to `caller` in `c` is unlocked.
pub open spec fn other_side_unlocked(c: ConnectionAccount, caller: Seq<u8>) -> bool {
    if caller == c.user_a@ {
        c.user_b_unlocked
    } else {
        c.user_a_unlocked
    }
}

/// Why an unlock of `c` by `caller` revealing a secret whose digest is
/// `pin_hash` is refused, if it is.
pub open spec fn unlock_error(c: ConnectionAccount, caller: Seq<u8>, pin_hash: Seq<u8>) -> Option<
    ErrorCode,
> {
    if !is_party(c, caller) {
        Some(ErrorCode::UnauthorizedUser)
    } else if c.spec_is_complete() {
        Some(ErrorCode::ConnectionFullyUnlocked)
    } else if pin_hash != commitment_for(c, caller) {
        Some(ErrorCode::InvalidPin)
    } else if has_unlocked(c, caller) {
        Some(ErrorCode::AlreadyUnlocked)
    } else {
        None
    }
}

/// `c` with the side of `caller` unlocked.
pub open spec fn unlocked_side(c: ConnectionAccount, caller: Seq<u8>) -> ConnectionAccount {
    if caller == c.user_a@ {
        ConnectionAccount { user_a_unlocked: true, ..c }
    } else {
        ConnectionAccount { user_b_unlocked: true, ..c }
    }
}

/// The record after an unlock request; unchanged if it is refused.
pub open spec fn unlock_state(c: ConnectionAccount, caller: Seq<u8>, pin_hash: Seq<u8>) -> ConnectionAccount {
    if unlock_error(c, caller, pin_hash) is None {
        unlocked_side(c, caller)
    } else {
        c
    }
}

/// The outcome of an unlock request: on success, whether the connection
/// is now complete.
pub open spec fn unlock_result(c: ConnectionAccount, caller: Seq<u8>, pin_hash: Seq<u8>) -> Result<
    bool,
    ErrorCode,
> {
    match unlock_error(c, caller, pin_hash) {
        Some(e) => Err(e),
        None => Ok(unlocked_side(c, caller).spec_is_complete()),
    }
}

/// Creates the record of a connection between the accounts `user_a` and
/// `user_b`, in which neither side is unlocked.
pub fn initialize_connection(
    key: [u8; 32],
    connection_id: &str,
    user_a: [u8; 32],
    user_b: [u8; 32],
    pin_a_hash: [u8; 32],
    pin_b_hash: [u8; 32],
    now: i64,
) -> (r: Result<ConnectionAccount, ErrorCode>)
    ensures
        connection_id.spec_bytes().len() > MAX_ID_LEN ==> r == Err::<ConnectionAccount, ErrorCode>(
            ErrorCode::ConnectionIdTooLong,
        ),
        connection_id.spec_bytes().len() <= MAX_ID_LEN && user_a@ == user_b@ ==> r == Err::<
            ConnectionAccount,
            ErrorCode,
        >(ErrorCode::SameUserConnection),
        connection_id.spec_bytes().len() <= MAX_ID_LEN && user_a@ != user_b@ ==> (r matches Ok(c)
            && c.key == key && c.connection_id@ == connection_id.spec_bytes() && c.user_a == user_a
            && c.user_b == user_b && c.pin_a_hash == pin_a_hash && c.pin_b_hash == pin_b_hash
            && !c.user_a_unlocked && !c.user_b_unlocked && c.created_at == now),
{
    let bytes = connection_id.as_bytes();
    if bytes.len() > MAX_ID_LEN {
        return Err(ErrorCode::ConnectionIdTooLong);
    }
    if keys_equal(&user_a, &user_b) {
        return Err(ErrorCode::SameUserConnection);
    }
    Ok(
        ConnectionAccount {
            key,
            connection_id: vstd::slice::slice_to_vec(bytes),
            user_a,
            user_b,
            pin_a_hash,
            pin_b_hash,
            user_a_unlocked: false,
            user_b_unlocked: false,
            created_at: now,
        },
    )
}

/// Whether `o` orders the reward for one unlock, minted from `mint` to `to`.
pub open spec fn is_reward_order(o: MintOrder, mint: [u8; 32], to: [u8; 32]) -> bool {
    o.mint == mint && o.to == to && o.amount == CONNECTION_MEMO_REWARD * DECIMAL_FACTOR
}

/// Why an unlock of `conn` by `caller`, revealing a secret whose digest is
/// `pin_hash`, is refused, if it is. Changes nothing.
pub fn unlock_refusal(conn: &ConnectionAccount, caller: &[u8; 32], pin_hash: &[u8; 32]) -> (r:
    Option<ErrorCode>)
    ensures
        r == unlock_error(*conn, caller@, pin_hash@),
{
    let is_user_a = keys_equal(caller, &conn.user_a);
    let is_user_b = keys_equal(caller, &conn.user_b);
    if !is_user_a && !is_user_b {
        return Some(ErrorCode::UnauthorizedUser);
    }
    if conn.user_a_unlocked && conn.user_b_unlocked {
        return Some(ErrorCode::ConnectionFullyUnlocked);
    }
    if is_user_a {
        if !keys_equal(pin_hash, &conn.pin_b_hash) {
            return Some(ErrorCode::InvalidPin);
        }
        if conn.user_a_unlocked {
            return Some(ErrorCode::AlreadyUnlocked);
        }
    } else {
        if !keys_equal(pin_hash, &conn.pin_a_hash) {
            return Some(ErrorCode::InvalidPin);
        }
        if conn.user_b_unlocked {
            return Some(ErrorCode::AlreadyUnlocked);
        }
    }
    None
}

/// Unlocks the side of `caller` in `conn`, given the digest of the secret
/// that the caller revealed, and returns the reward orders on `memo_mint`:
/// one to the caller, and a bonus to `beneficiary` on the unlock that
/// completes the connection.
pub fn unlock_with_pin(
    conn: &mut ConnectionAccount,
    caller: &[u8; 32],
    pin_hash: &[u8; 32],
    memo_mint: [u8; 32],
    beneficiary: [u8; 32],
) -> (r: Result<UnlockOutcome, ErrorCode>)
    ensures
        *final(conn) == unlock_state(*old(conn), caller@, pin_hash@),
        match r {
            Err(e) => unlock_error(*old(conn), caller@, pin_hash@) == Some(e),
            Ok(out) => {
                &&& unlock_error(*old(conn), caller@, pin_hash@) is None
                &&& out.caller_unlocked
                &&& out.both_complete == final(conn).spec_is_complete()
                &&& is_reward_order(out.reward, memo_mint, *caller)
                &&& (out.bonus is Some) == (!old(conn).spec_is_complete()
                    && final(conn).spec_is_complete())
                &&& out.bonus matches Some(b) ==> is_reward_order(b, memo_mint, beneficiary)
            },
        },
{
    if let Some(e) = unlock_refusal(conn, caller, pin_hash) {
        return Err(e);
    }
    if keys_equal(caller, &conn.user_a) {
        conn.user_a_unlocked = true;
    } else {
        conn.user_b_unlocked = true;
    }
    let both = conn.user_a_unlocked && conn.user_b_unlocked;
    let units = CONNECTION_MEMO_REWARD * DECIMAL_FACTOR;
    let reward = MintOrder { mint: memo_mint, to: *caller, amount: units };
    let bonus = if both {
        Some(MintOrder { mint: memo_mint, to: beneficiary, amount: units })
    } else {
        None
    };
    Ok(UnlockOutcome { caller_unlocked: true, both_complete: both, reward, bonus })
}

/// Unlocking twice: once a caller's unlock has succeeded, a second unlock
/// by the same caller fails whatever it reveals, and changes nothing. While
/// the other side is still locked, revealing the same secret again fails
/// with `AlreadyUnlocked`.
pub proof fn lemma_no_double_unlock(
    c: ConnectionAccount,
    caller: Seq<u8>,
    first: Seq<u8>,
    second: Seq<u8>,
)
    requires
        unlock_error(c, caller, first) is None,
    ensures
        unlock_error(unlock_state(c, caller, first), caller, second) is Some,
        unlock_state(unlock_state(c, caller, first), caller, second) == unlock_state(
            c,
            caller,
            first,
        ),
        !other_side_unlocked(c, caller) && second == first ==> unlock_error(unlock_state(c, caller, first), caller, second)
            == Some(ErrorCode::AlreadyUnlocked),
{
}

/// An unlock by a party of an incomplete connection, whose own side is
/// still locked, succeeds exactly when the revealed digest equals the
/// commitment of the other party; any other digest fails with `InvalidPin`
/// and leaves both flags as they were.
pub proof fn lemma_unlock_checks_commitment(c: ConnectionAccount, caller: Seq<u8>, pin_hash: Seq<u8>)
    requires
        is_party(c, caller),
        !c.spec_is_complete(),
        !has_unlocked(c, caller),
    ensures
        (unlock_result(c, caller, pin_hash) is Ok) == (pin_hash == commitment_for(c, caller)),
        pin_hash != commitment_for(c, caller) ==> unlock_result(c, caller, pin_hash) == Err::<
            bool,
            ErrorCode,
        >(ErrorCode::InvalidPin) && unlock_state(c, caller, pin_hash) == c,
{
}

/// An unlock flag never reverts, and a complete connection stays complete
/// and unchanged.
pub proof fn lemma_unlock_flags_only_rise(c: ConnectionAccount, caller: Seq<u8>, pin_hash: Seq<u8>)
    ensures
        c.user_a_unlocked ==> unlock_state(c, caller, pin_hash).user_a_unlocked,
        c.user_b_unlocked ==> unlock_state(c, caller, pin_hash).user_b_unlocked,
        c.spec_is_complete() ==> unlock_state(c, caller, pin_hash) == c,
{
}

} // verus!
