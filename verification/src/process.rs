//! The withdrawal dispatch layer: the checks a withdrawal request passes
//! before it reaches the ledger — the token must settle on a foreign chain,
//! the destination address must have passed the address validator, and the
//! amount must reach the asset's configured minimum.
//!
//! Address formats are a per-foreign-chain concern of an outside validator;
//! its verdict for `(token, addr)` is handed in by the caller.

use vstd::prelude::*;
use crate::types::{AccountId, AssetId, Balance, Chain, LedgerErr, Timestamp, WithdrawalLimit};
use crate::assets::XAssets;
use crate::records::{AssetRecords, spec_chain_of_token, spec_withdrawable, submit_records_post};

verus! {

/// The withdrawal limit of a token: the bridge keeps the configured fee and
/// asks that a withdrawal reach one-and-a-half times that fee. Only tokens
/// settling on Bitcoin carry a limit; a token without one cannot leave
/// through `withdraw`.
pub open spec fn spec_withdrawal_limit(
    a: XAssets,
    token: AssetId,
) -> Option<WithdrawalLimit<Balance>> {
    match a.spec_asset(token) {
        Some(asset) => if asset.chain == Chain::Bitcoin {
            Some(WithdrawalLimit {
                minimal_withdrawal: ((asset.withdrawal_fee as int) * 3 / 2) as Balance,
                fee: asset.withdrawal_fee,
            })
        } else {
            None
        },
        None => None,
    }
}

/// The minimum and fee a withdrawal of `token` is held to, if the token can
/// be withdrawn at all.
pub fn withdrawal_limit(assets: &XAssets, token: AssetId) -> (r: Option<WithdrawalLimit<Balance>>)
    requires
        assets.wf(),
    ensures
        r == spec_withdrawal_limit(*assets, token),
{
    match assets.get_asset(token) {
        Some(asset) => {
            if asset.chain == Chain::Bitcoin {
                let fee = asset.withdrawal_fee;
                Some(WithdrawalLimit { minimal_withdrawal: fee * 3 / 2, fee })
            } else {
                None
            }
        },
        None => None,
    }
}

/// Submits a withdrawal through the full set of entry checks: the token
/// settles on a foreign chain, the address validator accepted the
/// destination (`addr_valid` is its verdict), the token carries a
/// withdrawal limit and the amount reaches it, and the applicant's free
/// balance covers the amount. On success the application is appended to its
/// partition and the amount is locked.
pub fn withdraw(
    records: &mut AssetRecords,
    assets: &mut XAssets,
    who: AccountId,
    token: AssetId,
    value: Balance,
    addr: Vec<u8>,
    ext: Vec<u8>,
    now: Timestamp,
    addr_valid: bool,
) -> (r: Result<u32, LedgerErr>)
    requires
        old(records).wf(),
        old(assets).wf(),
        !old(records).is_pending(old(records).spec_number()),
        old(assets).spec_reserved(who, token) + value <= Balance::MAX,
    ensures
        final(records).wf(),
        r is Err ==> *final(records) == *old(records) && *final(assets) == *old(assets),
        r == Err::<u32, LedgerErr>(LedgerErr::TokenNotWithdrawable)
            <==> !spec_withdrawable(*old(assets), token)
                || (addr_valid && spec_withdrawal_limit(*old(assets), token) is None),
        r == Err::<u32, LedgerErr>(LedgerErr::AddressInvalid)
            <==> spec_withdrawable(*old(assets), token) && !addr_valid,
        r == Err::<u32, LedgerErr>(LedgerErr::BelowMinimum)
            <==> spec_withdrawable(*old(assets), token) && addr_valid
                && spec_withdrawal_limit(*old(assets), token) is Some
                && value < spec_withdrawal_limit(*old(assets), token).unwrap().minimal_withdrawal,
        r == Err::<u32, LedgerErr>(LedgerErr::InsufficientFreeBalance)
            <==> spec_withdrawable(*old(assets), token) && addr_valid
                && spec_withdrawal_limit(*old(assets), token) is Some
                && value >= spec_withdrawal_limit(*old(assets), token).unwrap().minimal_withdrawal
                && old(assets).spec_free(who, token) < value,
        r is Ok <==> spec_withdrawable(*old(assets), token) && addr_valid
            && spec_withdrawal_limit(*old(assets), token) is Some
            && value >= spec_withdrawal_limit(*old(assets), token).unwrap().minimal_withdrawal
            && old(assets).spec_free(who, token) >= value,
        r is Ok ==> {
            &&& r == Ok::<u32, LedgerErr>(old(records).spec_number())
            &&& submit_records_post(
                *old(records),
                *final(records),
                spec_chain_of_token(*old(assets), token),
                old(records).spec_number(),
                crate::types::AppView {
                    id: old(records).spec_number(),
                    applicant: who,
                    token,
                    balance: value,
                    addr: addr@,
                    ext: ext@,
                    time: now,
                },
            )
            &&& crate::assets::lock_post(*old(assets), *final(assets), who, token, value)
        },
{
    let asset = match assets.get_asset(token) {
        Some(a) => a,
        None => {
            return Err(LedgerErr::TokenNotWithdrawable);
        },
    };
    if asset.chain == Chain::ChainX {
        return Err(LedgerErr::TokenNotWithdrawable);
    }
    if !addr_valid {
        return Err(LedgerErr::AddressInvalid);
    }
    let limit = match withdrawal_limit(assets, token) {
        Some(l) => l,
        None => {
            return Err(LedgerErr::TokenNotWithdrawable);
        },
    };
    if value < limit.minimal_withdrawal {
        return Err(LedgerErr::BelowMinimum);
    }
    records.withdrawal(assets, who, token, value, addr, ext, now)
}

} // verus!
