use crate::errors::ErrorCode;
use crate::growth::{config_wf, GrowthConfig, MAX_ACCOUNT_DATA};
use crate::ids::{id_byte_seq, identity_to_bytes, zero_identity, Identity};
use crate::ledger::{
    append_vote, append_vote_err, append_vote_ok, ledger_wf, pda_wf, records_size, Ledger,
    PDAAccount,
};
use crate::tally::{
    credited_account, finalize_and_credit, pda_lookup, try_find_pda, SuppliedAccount,
    UserAccountPda,
};
use vstd::bytes::{spec_u64_to_le_bytes, u64_to_le_bytes};
use vstd::prelude::*;

verus! {

/// The seed tag under which a ledger account address is derived: the
/// bytes of `"pda_account"`.
pub open spec fn pda_account_seed() -> Seq<u8> {
    seq![0x70u8, 0x64, 0x61, 0x5f, 0x61, 0x63, 0x63, 0x6f, 0x75, 0x6e, 0x74]
}

/// Produces the ledger seed tag bytes.
pub fn pda_account_seed_bytes() -> (v: Vec<u8>)
    ensures
        v@ == pda_account_seed(),
{
    let v: Vec<u8> = vec![0x70u8, 0x64, 0x61, 0x5f, 0x61, 0x63, 0x63, 0x6f, 0x75, 0x6e, 0x74];
    proof {
        assert(v@ =~= pda_account_seed());
    }
    v
}

/// The deterministic address of the ledger account for one period range:
/// derived from the ledger seed tag, the little-endian period-range id,
/// and the program id. Any party can recompute it to locate or validate
/// the account without a registry.
pub fn ledger_address(unique_id: u64, program_id: &Identity) -> (r: Option<Vec<u8>>)
    ensures
        match r {
            Some(v) => pda_lookup(
                pda_account_seed(),
                spec_u64_to_le_bytes(unique_id),
                id_byte_seq(*program_id),
            ) == Some(v@) && v@.len() == 32,
            None => pda_lookup(
                pda_account_seed(),
                spec_u64_to_le_bytes(unique_id),
                id_byte_seq(*program_id),
            ) is None,
        },
{
    let tag = pda_account_seed_bytes();
    let idb = u64_to_le_bytes(unique_id);
    let pb = identity_to_bytes(program_id);
    try_find_pda(&tag, &idb, &pb)
}

/// The submitter's own credit account after its lazy initialization: the
/// owner is recorded on first use and never overwritten afterwards.
pub open spec fn owned_account(a: UserAccountPda, payer: Identity) -> UserAccountPda {
    if a.user == zero_identity() {
        UserAccountPda { user: payer, ..a }
    } else {
        a
    }
}

/// The full submission operation. It appends the payer's vote for
/// `(block_id, final_hash)` into the ledger under the growth-and-funding
/// policy; records the payer as owner of their own credit account if that
/// account is still unowned; and, when a previous-period snapshot is
/// supplied, runs the finalization pass over it, crediting the winning
/// voters among the caller-supplied accounts. An absent snapshot skips
/// the tally, and so does an empty one: neither is an error here.
///
/// On any failure — the growth policy cannot secure capacity, or the
/// payer cannot fund it — nothing is mutated: the ledger, the payer
/// balance, the submitter account and the supplied accounts all stay
/// exactly as they were.
pub fn append_data(
    ledger: &mut Ledger,
    prev: Option<&PDAAccount>,
    cfg: &GrowthConfig,
    block_id: u64,
    final_hash: &Vec<u8>,
    accounts: &mut Vec<SuppliedAccount>,
    user_account_pda: &mut UserAccountPda,
    payer: Identity,
    payer_lamports: &mut u64,
    program_id: &Identity,
) -> (r: Result<(), ErrorCode>)
    requires
        ledger_wf(*old(ledger)),
        config_wf(*cfg),
        match prev {
            Some(p) => pda_wf(*p) && records_size(p@) <= MAX_ACCOUNT_DATA,
            None => true,
        },
        forall|i: int|
            0 <= i < old(accounts)@.len() ==> (#[trigger] old(accounts)@[i]).account.credit
                < u64::MAX,
    ensures
        match r {
            Ok(()) => {
                &&& append_vote_err(
                    *old(ledger),
                    *cfg,
                    block_id,
                    final_hash@,
                    payer,
                    *old(payer_lamports),
                ) is None
                &&& append_vote_ok(
                    *old(ledger),
                    *cfg,
                    block_id,
                    final_hash@,
                    payer,
                    *final(ledger),
                    *old(payer_lamports),
                    *final(payer_lamports),
                )
                &&& ledger_wf(*final(ledger))
                &&& final(ledger).capacity >= old(ledger).capacity
                &&& *final(user_account_pda) == owned_account(*old(user_account_pda), payer)
                &&& final(accounts)@.len() == old(accounts)@.len()
                &&& match prev {
                    Some(p) => {
                        &&& (p@.len() > 0 ==> forall|i: int|
                            0 <= i < old(accounts)@.len() ==> final(accounts)@[i]
                                == credited_account(
                                p@,
                                id_byte_seq(*program_id),
                                block_id,
                                payer,
                                #[trigger] old(accounts)@[i],
                            ))
                        &&& (p@.len() == 0 ==> final(accounts)@ == old(accounts)@)
                    },
                    None => final(accounts)@ == old(accounts)@,
                }
            },
            Err(e) => {
                &&& Some(e) == append_vote_err(
                    *old(ledger),
                    *cfg,
                    block_id,
                    final_hash@,
                    payer,
                    *old(payer_lamports),
                )
                &&& *final(ledger) == *old(ledger)
                &&& *final(payer_lamports) == *old(payer_lamports)
                &&& *final(accounts) == *old(accounts)
                &&& *final(user_account_pda) == *old(user_account_pda)
            },
        },
{
    match append_vote(ledger, cfg, block_id, final_hash, payer, payer_lamports) {
        Ok(()) => {},
        Err(e) => {
            return Err(e);
        },
    }
    let z = Identity::zero();
    if user_account_pda.user == z {
        user_account_pda.user = payer;
    }
    match prev {
        Some(p) => {
            if p.block_ids.len() > 0 {
                match finalize_and_credit(p, block_id, payer, accounts, program_id) {
                    Ok(()) => {},
                    Err(_) => {
                        proof {
                            assert(false);
                        }
                    },
                }
            } else {
                proof {
                    assert(p@.len() == 0);
                }
            }
        },
        None => {},
    }
    Ok(())
}

} // verus!
