//! System-variable accounts, which the by-address index leaves out.

use vstd::prelude::*;
use solana_sdk::pubkey::Pubkey;
use solana_sdk_ids::sysvar as ids;
use std::str::FromStr;

verus! {

/// Whether the text names a system-variable account.
pub uninterp spec fn sysvar_address(address: Seq<char>) -> bool;

/// Relies on `Pubkey::from_str` (base58 text to address) and on the
/// `check_id` of each account module under solana-sdk-ids' `sysvar`: text
/// that is no address is no sysvar account.
#[verifier::external_body]
pub(crate) fn is_sysvar_address(address: &String) -> (r: bool)
    ensures
        r == sysvar_address(address@),
{
    match Pubkey::from_str(address) {
        Err(_) => false,
        Ok(p) => ids::clock::check_id(&p) || ids::epoch_rewards::check_id(&p)
            || ids::epoch_schedule::check_id(&p) || ids::fees::check_id(&p)
            || ids::instructions::check_id(&p) || ids::last_restart_slot::check_id(&p)
            || ids::recent_blockhashes::check_id(&p) || ids::rent::check_id(&p)
            || ids::rewards::check_id(&p) || ids::slot_hashes::check_id(&p)
            || ids::slot_history::check_id(&p) || ids::stake_history::check_id(&p),
    }
}

} // verus!
