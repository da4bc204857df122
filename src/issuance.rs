use vstd::prelude::*;
use vstd::string::StringSliceAdditionalSpecFns;

use crate::state::{ErrorCode, UserAccount, DAILY_ME_LIMIT, DAY_IN_SECONDS, INITIAL_ME_MINT, MAX_ID_LEN};

verus! {

/// Whether a request at `now` falls in a later quota window than the one
/// that began at `last`: at least one whole day has elapsed.
pub open spec fn starts_new_window(last: i64, now: i64) -> bool {
    now - last >= DAY_IN_SECONDS
}

/// The part of the quota already used, as seen by a request at `now`.
/// A new window clears it once, however many days have passed.
pub open spec fn quota_used_at(a: UserAccount, now: i64) -> u64 {
    if starts_new_window(a.last_mint_time, now) {
        0
    } else {
        a.daily_minted_today
    }
}

/// What a daily mint at `now` owes: the whole remaining headroom.
pub open spec fn daily_headroom(a: UserAccount, now: i64) -> int {
    DAILY_ME_LIMIT - quota_used_at(a, now)
}

/// The outcome of a daily mint request at `now` on the account `a`.
pub open spec fn mint_daily_result(a: UserAccount, now: i64) -> Result<u64, ErrorCode> {
    if quota_used_at(a, now) >= DAILY_ME_LIMIT {
        Err(ErrorCode::DailyLimitReached)
    } else if a.total_me_minted + daily_headroom(a, now) > u64::MAX {
        Err(ErrorCode::Overflow)
    } else {
        Ok(daily_headroom(a, now) as u64)
    }
}

/// The account after a daily mint request at `now`; unchanged if it fails.
pub open spec fn mint_daily_state(a: UserAccount, now: i64) -> UserAccount {
    match mint_daily_result(a, now) {
        Ok(minted) => UserAccount {
            last_mint_time: if starts_new_window(a.last_mint_time, now) {
                now
            } else {
                a.last_mint_time
            },
            daily_minted_today: DAILY_ME_LIMIT,
            total_me_minted: (a.total_me_minted + minted) as u64,
            ..a
        },
        Err(_) => a,
    }
}

/// Creates the record of a newly registered identity, holding the initial
/// grant as both its lifetime total and the quota used in its first window.
pub fn new_user_account(key: [u8; 32], user_id: &str, me_mint: [u8; 32], now: i64) -> (r:
    Result<UserAccount, ErrorCode>)
    ensures
        user_id.spec_bytes().len() > MAX_ID_LEN ==> r == Err::<UserAccount, ErrorCode>(
            ErrorCode::UserIdTooLong,
        ),
        user_id.spec_bytes().len() <= MAX_ID_LEN ==> (r matches Ok(a) && a.key == key
            && a.user_id@ == user_id.spec_bytes() && a.me_mint == me_mint && a.last_mint_time
            == now && a.daily_minted_today == INITIAL_ME_MINT && a.total_me_minted
            == INITIAL_ME_MINT && a.total_me_locked == 0 && a.total_memo_earned == 0
            && a.connections_count == 0),
{
    let bytes = user_id.as_bytes();
    if bytes.len() > MAX_ID_LEN {
        return Err(ErrorCode::UserIdTooLong);
    }
    Ok(
        UserAccount {
            key,
            user_id: vstd::slice::slice_to_vec(bytes),
            me_mint,
            last_mint_time: now,
            daily_minted_today: INITIAL_ME_MINT,
            total_me_minted: INITIAL_ME_MINT,
            total_me_locked: 0,
            total_memo_earned: 0,
            connections_count: 0,
        },
    )
}

/// Issues the remaining daily quota of `account` at `now`: a request in a
/// new window first clears the quota used, then the whole headroom is
/// minted. Returns the number of whole tokens to mint.
pub fn mint_daily(account: &mut UserAccount, now: i64) -> (r: Result<u64, ErrorCode>)
    ensures
        r == mint_daily_result(*old(account), now),
        *final(account) == mint_daily_state(*old(account), now),
{
    let new_window = (now as i128) - (account.last_mint_time as i128) >= (DAY_IN_SECONDS as i128);
    let used: u64 = if new_window {
        0
    } else {
        account.daily_minted_today
    };
    if used >= DAILY_ME_LIMIT {
        return Err(ErrorCode::DailyLimitReached);
    }
    let to_mint: u64 = DAILY_ME_LIMIT - used;
    let total = match account.total_me_minted.checked_add(to_mint) {
        Some(t) => t,
        None => {
            return Err(ErrorCode::Overflow);
        },
    };
    if new_window {
        account.last_mint_time = now;
    }
    account.daily_minted_today = used + to_mint;
    account.total_me_minted = total;
    Ok(to_mint)
}

/// A request in a new quota window grants the full daily limit, not one
/// limit per elapsed day, and leaves exactly the limit used, whatever was
/// used before and however many days have passed.
pub proof fn lemma_new_window_grants_one_limit(a: UserAccount, now: i64)
    requires
        starts_new_window(a.last_mint_time, now),
        a.total_me_minted + DAILY_ME_LIMIT <= u64::MAX,
    ensures
        mint_daily_result(a, now) == Ok::<u64, ErrorCode>(DAILY_ME_LIMIT),
        mint_daily_state(a, now).daily_minted_today == DAILY_ME_LIMIT,
        mint_daily_state(a, now).last_mint_time == now,
        mint_daily_state(a, now).total_me_minted == a.total_me_minted + DAILY_ME_LIMIT,
{
}

/// A daily mint keeps the quota used within the limit and never lowers
/// the lifetime total.
pub proof fn lemma_mint_daily_bounded(a: UserAccount, now: i64)
    requires
        a.daily_minted_today <= DAILY_ME_LIMIT,
    ensures
        mint_daily_state(a, now).daily_minted_today <= DAILY_ME_LIMIT,
        mint_daily_state(a, now).total_me_minted >= a.total_me_minted,
        mint_daily_result(a, now) matches Ok(m) ==> mint_daily_state(a, now).total_me_minted
            == a.total_me_minted + m,
{
}

} // verus!
