use crate::aggregate::VoterAccounting;
use crate::errors::ErrorCode;
use crate::ids::Identity;
use crate::ids::contains_identity;
use crate::ledger::PDAAccount;
use crate::tally::UserAccountPda;
use vstd::bytes::{spec_u64_to_le_bytes, u64_to_le_bytes};
use vstd::prelude::*;
use vstd::utf8::valid_utf8;

verus! {

/// How many voters one sampling pass selects for credit.
pub const SAMPLE_COUNT: u64 = 3;

/// One step of the cyclic selection walk: starting at `idx`, visit
/// `steps` further pool slots, adding each identity not yet present in
/// `dest`, until `k` have been added.
pub open spec fn select_step(
    pool: Seq<Identity>,
    dest: Seq<Identity>,
    idx: int,
    steps: nat,
    k: int,
) -> Seq<Identity>
    recommends
        pool.len() > 0,
        0 <= idx < pool.len(),
    decreases steps,
{
    if steps == 0 || k <= 0 || pool.len() == 0 {
        dest
    } else {
        let x = pool[idx];
        let next = (idx + 1) % (pool.len() as int);
        if dest.contains(x) {
            select_step(pool, dest, next, (steps - 1) as nat, k)
        } else {
            select_step(pool, dest.push(x), next, (steps - 1) as nat, k - 1)
        }
    }
}

/// The whole selection: the walk starts at `seed mod len` and visits each
/// pool slot at most once.
pub open spec fn select_spec(pool: Seq<Identity>, dest: Seq<Identity>, seed: u64, k: int) -> Seq<
    Identity,
>
    recommends
        pool.len() > 0,
{
    select_step(pool, dest, (seed as int) % (pool.len() as int), pool.len(), k)
}

/// Pseudo-random bounded selection from a non-empty pool: starting at
/// `seed mod len`, walks the pool cyclically and appends to `dest` each
/// identity not already present, stopping once `k` identities were added
/// or every pool slot was visited once.
///
/// The seed is expected to come from a coarse clock: this is a weak
/// reward-limiting mechanism, predictable by anyone who can influence
/// call timing, and must not be treated as a security boundary.
pub fn select_k(pool: &Vec<Identity>, k: u64, seed: u64, dest: &mut Vec<Identity>)
    requires
        pool@.len() >= 1,
    ensures
        final(dest)@ == select_spec(pool@, old(dest)@, seed, k as int),
{
    let len = pool.len();
    let mut idx: usize = (seed % (len as u64)) as usize;
    let mut steps: usize = len;
    let mut need: u64 = k;
    proof {
        assert((seed as int) % (pool@.len() as int) == idx as int);
    }
    while steps > 0 && need > 0
        invariant
            pool@.len() == len,
            len >= 1,
            idx < len,
            steps <= len,
            select_step(pool@, dest@, idx as int, steps as nat, need as int) == select_spec(
                pool@,
                old(dest)@,
                seed,
                k as int,
            ),
        decreases steps,
    {
        let x = pool[idx];
        if !contains_identity(dest, x) {
            dest.push(x);
            need = need - 1;
        }
        proof {
            if idx + 1 == len {
                vstd::arithmetic::div_mod::lemma_mod_self_0(len as int);
            } else {
                vstd::arithmetic::div_mod::lemma_small_mod((idx + 1) as nat, len as nat);
            }
        }
        idx = if idx + 1 == len {
            0
        } else {
            idx + 1
        };
        steps = steps - 1;
    }
    proof {
        assert(select_step(pool@, dest@, idx as int, steps as nat, need as int) == dest@);
    }
}

/// Whether no aggregate entry bars this voter from the pool: a voter
/// already credited at or past `start_block` is excluded.
pub open spec fn all_entries_allow(
    accounting: Seq<UserAccountPda>,
    v: Identity,
    start_block: u64,
) -> bool {
    forall|e: int|
        0 <= e < accounting.len() ==> ((#[trigger] accounting[e]).user != v || accounting[e].inblock
            < start_block)
}

/// The voters of a candidate that are still eligible for sampling, in
/// the order they voted.
pub open spec fn eligible_pool(
    voters: Seq<Identity>,
    accounting: Seq<UserAccountPda>,
    start_block: u64,
) -> Seq<Identity> {
    voters.filter(|v: Identity| all_entries_allow(accounting, v, start_block))
}

/// Whether the aggregate allows this voter into the pool.
fn entry_allows(accounting: &VoterAccounting, v: Identity, start_block: u64) -> (r: bool)
    ensures
        r == all_entries_allow(accounting.pubkey_counts@, v, start_block),
{
    let mut e: usize = 0;
    while e < accounting.pubkey_counts.len()
        invariant
            e <= accounting.pubkey_counts@.len(),
            forall|x: int|
                0 <= x < e ==> ((#[trigger] accounting.pubkey_counts@[x]).user != v
                    || accounting.pubkey_counts@[x].inblock < start_block),
        decreases accounting.pubkey_counts@.len() - e,
    {
        let entry = &accounting.pubkey_counts[e];
        if entry.user == v && entry.inblock >= start_block {
            return false;
        }
        e += 1;
    }
    true
}

/// Unfolding step for the eligible pool over a growing prefix.
proof fn lemma_eligible_pool_step(
    voters: Seq<Identity>,
    accounting: Seq<UserAccountPda>,
    start_block: u64,
)
    requires
        voters.len() >= 1,
    ensures
        eligible_pool(voters, accounting, start_block) == if all_entries_allow(
            accounting,
            voters.last(),
            start_block,
        ) {
            eligible_pool(voters.drop_last(), accounting, start_block).push(voters.last())
        } else {
            eligible_pool(voters.drop_last(), accounting, start_block)
        },
{
    reveal(Seq::filter);
}

/// The sampling pass over a sealed snapshot: takes the first block's
/// first candidate — failing with `NotFound` when the snapshot has no
/// block or that block has no candidate — checks that its digest decodes
/// as text, failing with `DecodeError` on bytes that are not valid UTF-8,
/// filters the candidate's voters against the aggregate, and
/// pseudo-randomly selects `SAMPLE_COUNT` of them. Fewer than
/// `SAMPLE_COUNT` eligible voters fail with `InsufficientCandidates`.
pub fn aggregate_pubkey_counts(
    snapshot: &PDAAccount,
    start_block_id: u64,
    accounting: &VoterAccounting,
    seed: u64,
) -> (r: Result<Vec<Identity>, ErrorCode>)
    ensures
        ({
            let has_candidate = snapshot@.len() > 0 && snapshot@[0].hashes.len() > 0;
            let digest_bytes = spec_u64_to_le_bytes(snapshot@[0].hashes[0].value);
            let pool = eligible_pool(
                snapshot@[0].hashes[0].voters,
                accounting.pubkey_counts@,
                start_block_id,
            );
            match r {
                Ok(sel) => {
                    &&& has_candidate
                    &&& valid_utf8(digest_bytes)
                    &&& pool.len() >= SAMPLE_COUNT
                    &&& sel@ == select_spec(pool, Seq::empty(), seed, SAMPLE_COUNT as int)
                },
                Err(e) => if !has_candidate {
                    e == ErrorCode::NotFound
                } else if !valid_utf8(digest_bytes) {
                    e == ErrorCode::DecodeError
                } else {
                    e == ErrorCode::InsufficientCandidates && pool.len() < SAMPLE_COUNT
                },
            }
        }),
{
    if snapshot.block_ids.len() == 0 {
        return Err(ErrorCode::NotFound);
    }
    let first_block = &snapshot.block_ids[0];
    if first_block.final_hashes.len() == 0 {
        return Err(ErrorCode::NotFound);
    }
    let first_entry = &first_block.final_hashes[0];
    proof {
        assert(snapshot@[0] == snapshot.block_ids@[0]@);
        assert(snapshot@[0].hashes[0] == first_block.final_hashes@[0]@);
    }
    let digest_bytes = u64_to_le_bytes(first_entry.final_hash);
    if !utf8_check(&digest_bytes) {
        return Err(ErrorCode::DecodeError);
    }
    let voters = &first_entry.pubkeys;
    let ghost vv = voters@;
    let ghost av = accounting.pubkey_counts@;
    let mut pool: Vec<Identity> = Vec::new();
    let mut j: usize = 0;
    while j < voters.len()
        invariant
            j <= vv.len(),
            vv == voters@,
            av == accounting.pubkey_counts@,
            pool@ == eligible_pool(vv.take(j as int), av, start_block_id),
        decreases vv.len() - j,
    {
        proof {
            assert(vv.take(j as int + 1).drop_last() =~= vv.take(j as int));
            assert(vv.take(j as int + 1).last() == vv[j as int]);
            lemma_eligible_pool_step(vv.take(j as int + 1), av, start_block_id);
        }
        if entry_allows(accounting, voters[j], start_block_id) {
            pool.push(voters[j]);
        }
        j += 1;
    }
    proof {
        assert(vv.take(vv.len() as int) =~= vv);
    }
    if (pool.len() as u64) < SAMPLE_COUNT {
        return Err(ErrorCode::InsufficientCandidates);
    }
    let mut selected: Vec<Identity> = Vec::new();
    select_k(&pool, SAMPLE_COUNT, seed, &mut selected);
    Ok(selected)
}

/// Relies on `std::str::from_utf8`: it accepts exactly the byte strings
/// that are valid UTF-8, as `vstd::utf8::valid_utf8` specifies.
#[verifier::external_body]
fn utf8_check(bytes: &Vec<u8>) -> (r: bool)
    ensures
        r == valid_utf8(bytes@),
{
    std::str::from_utf8(bytes.as_slice()).is_ok()
}

} // verus!
