use crate::errors::ErrorCode;
use crate::growth::MAX_ACCOUNT_DATA;
use crate::ids::{id_byte_seq, identity_to_bytes, Identity};
use crate::ledger::{
    block_size, blocks_size, candidate_size, hashes_size, pda_wf, records_size, BlockEntry,
    BlockView, CandidateView, FinalHashEntry, PDAAccount,
};
use vstd::prelude::*;

verus! {

/// One participant's credit account: its owner, a monotonic credit
/// counter, a debit counter, and the last period it was credited for.
#[derive(Clone, Copy, PartialEq, Eq, Structural, Debug)]
pub struct UserAccountPda {
    /// The owning identity; all zero until first recorded.
    pub user: Identity,
    /// Monotonic reward counter.
    pub credit: u64,
    /// Debit counter, carried for read-back.
    pub debit: u64,
    /// The last period this account was credited for; guards replays.
    pub inblock: u64,
}

/// A caller-supplied candidate credit account: the address the caller
/// claims for it and the account data behind it. The address is never
/// trusted by position — crediting recomputes the expected derived
/// address for each winning voter and compares.
#[derive(Clone, Copy, PartialEq, Eq, Structural, Debug)]
pub struct SuppliedAccount {
    /// The address of the supplied account.
    pub address: Identity,
    /// The account's data.
    pub account: UserAccountPda,
}

// ---------------------------------------------------------------------------
// Majority winner
// ---------------------------------------------------------------------------
/// Total number of votes cast in a block: the sum of the candidates'
/// voter-set cardinalities.
pub open spec fn total_votes(hs: Seq<CandidateView>) -> int
    decreases hs.len(),
{
    if hs.len() == 0 {
        0
    } else {
        total_votes(hs.drop_last()) + hs.last().voters.len()
    }
}

/// The first index among candidates with the highest voter count — the
/// position a stable sort by count descending would put on top.
pub open spec fn max_count_index(hs: Seq<CandidateView>) -> int
    recommends
        hs.len() >= 1,
    decreases hs.len(),
{
    if hs.len() <= 1 {
        0
    } else {
        let r = max_count_index(hs.drop_last());
        if hs.last().voters.len() > hs[r].voters.len() {
            hs.len() - 1
        } else {
            r
        }
    }
}

/// The majority winner of a block: the top candidate, if and only if its
/// voter count strictly exceeds half of all votes cast — a tie at exactly
/// half does not win.
pub open spec fn winner_of(b: BlockView) -> Option<CandidateView> {
    if b.hashes.len() == 0 {
        None
    } else {
        let i = max_count_index(b.hashes);
        if b.hashes[i].voters.len() * 2 > total_votes(b.hashes) {
            Some(b.hashes[i])
        } else {
            None
        }
    }
}

/// The top index lies in range and no candidate beats it; earlier
/// candidates never tie it from above.
pub proof fn lemma_max_count_char(hs: Seq<CandidateView>)
    requires
        hs.len() >= 1,
    ensures
        0 <= max_count_index(hs) < hs.len(),
        forall|j: int|
            0 <= j < hs.len() ==> (#[trigger] hs[j]).voters.len() <= hs[max_count_index(
                hs,
            )].voters.len(),
        forall|j: int|
            0 <= j < max_count_index(hs) ==> (#[trigger] hs[j]).voters.len() < hs[max_count_index(
                hs,
            )].voters.len(),
    decreases hs.len(),
{
    if hs.len() > 1 {
        lemma_max_count_char(hs.drop_last());
        assert(forall|j: int| 0 <= j < hs.len() - 1 ==> hs[j] == hs.drop_last()[j]);
    }
}

/// Vote totals are never negative.
pub proof fn lemma_total_votes_nonneg(hs: Seq<CandidateView>)
    ensures
        total_votes(hs) >= 0,
    decreases hs.len(),
{
    if hs.len() > 0 {
        lemma_total_votes_nonneg(hs.drop_last());
    }
}

/// A prefix never holds more votes than the whole list.
pub proof fn lemma_total_votes_take(hs: Seq<CandidateView>, j: int)
    requires
        0 <= j <= hs.len(),
    ensures
        total_votes(hs.take(j)) <= total_votes(hs),
    decreases hs.len() - j,
{
    if j == hs.len() {
        assert(hs.take(j) =~= hs);
    } else {
        assert(hs.take(j + 1).drop_last() =~= hs.take(j));
        assert(hs.take(j + 1).last() == hs[j]);
        lemma_total_votes_take(hs, j + 1);
    }
}

/// Serialized candidate records dominate their vote counts: each voter
/// occupies a full identity in the encoding.
pub proof fn lemma_total_votes_le_size(hs: Seq<CandidateView>)
    ensures
        32 * total_votes(hs) <= hashes_size(hs),
    decreases hs.len(),
{
    if hs.len() > 0 {
        lemma_total_votes_le_size(hs.drop_last());
    }
}

/// Every candidate record has non-negative serialized size.
pub proof fn lemma_hashes_size_nonneg(hs: Seq<CandidateView>)
    ensures
        hashes_size(hs) >= 0,
    decreases hs.len(),
{
    if hs.len() > 0 {
        lemma_hashes_size_nonneg(hs.drop_last());
    }
}

/// Every block list has non-negative serialized size, and each member
/// block's size is bounded by the whole.
pub proof fn lemma_block_size_in_list(bs: Seq<BlockView>, k: int)
    requires
        0 <= k < bs.len(),
    ensures
        block_size(bs[k]) <= blocks_size(bs),
        blocks_size(bs) >= 0,
    decreases bs.len(),
{
    lemma_hashes_size_nonneg(bs.last().hashes);
    if bs.len() == 1 {
        assert(bs[k] == bs.last());
        assert(bs.drop_last() =~= Seq::<BlockView>::empty());
        assert(blocks_size(bs.drop_last()) == 0);
    } else {
        if k == bs.len() - 1 {
            assert(bs[k] == bs.last());
            lemma_blocks_size_nonneg(bs.drop_last());
        } else {
            assert(bs.drop_last()[k] == bs[k]);
            lemma_block_size_in_list(bs.drop_last(), k);
        }
    }
}

/// Block lists serialize to a non-negative number of bytes.
pub proof fn lemma_blocks_size_nonneg(bs: Seq<BlockView>)
    ensures
        blocks_size(bs) >= 0,
    decreases bs.len(),
{
    if bs.len() > 0 {
        lemma_blocks_size_nonneg(bs.drop_last());
        lemma_hashes_size_nonneg(bs.last().hashes);
    }
}

/// A snapshot within the host's data cap casts fewer votes per block than
/// fit in a machine word.
pub proof fn lemma_total_votes_bounded(bs: Seq<BlockView>, k: int)
    requires
        0 <= k < bs.len(),
        records_size(bs) <= MAX_ACCOUNT_DATA,
    ensures
        0 <= total_votes(bs[k].hashes) <= MAX_ACCOUNT_DATA,
{
    lemma_total_votes_nonneg(bs[k].hashes);
    lemma_total_votes_le_size(bs[k].hashes);
    lemma_block_size_in_list(bs, k);
}

/// Picks the winning candidate of a block, if any: the first candidate
/// with the highest voter count wins exactly when that count strictly
/// exceeds half the block's total votes.
pub fn winning_candidate(b: &BlockEntry) -> (r: Option<usize>)
    requires
        total_votes(b@.hashes) <= MAX_ACCOUNT_DATA,
    ensures
        match r {
            Some(j) => {
                &&& j < b.final_hashes@.len()
                &&& j as int == max_count_index(b@.hashes)
                &&& winner_of(b@) == Some(b@.hashes[j as int])
            },
            None => winner_of(b@) is None,
        },
{
    let n = b.final_hashes.len();
    if n == 0 {
        return None;
    }
    let ghost hv = b@.hashes;
    proof {
        lemma_total_votes_nonneg(hv);
    }
    let mut total: u64 = 0;
    let mut j: usize = 0;
    while j < n
        invariant
            j <= n,
            n == b.final_hashes@.len(),
            hv == b@.hashes,
            total == total_votes(hv.take(j as int)),
            total_votes(hv) <= MAX_ACCOUNT_DATA,
        decreases n - j,
    {
        proof {
            assert(hv.take(j as int + 1).drop_last() =~= hv.take(j as int));
            assert(hv.take(j as int + 1).last() == hv[j as int]);
            lemma_total_votes_take(hv, j as int + 1);
            lemma_total_votes_nonneg(hv.take(j as int));
        }
        total = total + b.final_hashes[j].pubkeys.len() as u64;
        j += 1;
    }
    proof {
        assert(hv.take(n as int) =~= hv);
    }
    let mut mi: usize = 0;
    let mut k: usize = 1;
    while k < n
        invariant
            1 <= k <= n,
            mi < k,
            n == b.final_hashes@.len(),
            hv == b@.hashes,
            mi as int == max_count_index(hv.take(k as int)),
        decreases n - k,
    {
        proof {
            assert(hv.take(k as int + 1).drop_last() =~= hv.take(k as int));
            assert(hv.take(k as int + 1).last() == hv[k as int]);
        }
        if b.final_hashes[k].pubkeys.len() > b.final_hashes[mi].pubkeys.len() {
            mi = k;
        }
        k += 1;
    }
    proof {
        assert(hv.take(n as int) =~= hv);
    }
    let cnt = b.final_hashes[mi].pubkeys.len() as u64;
    if (cnt as u128) * 2 > total as u128 {
        Some(mi)
    } else {
        None
    }
}

// ---------------------------------------------------------------------------
// Derived addresses
// ---------------------------------------------------------------------------
/// The seed tag under which a voter's credit account address is derived:
/// the bytes of `"user_account_pda"`.
pub open spec fn user_account_seed() -> Seq<u8> {
    seq![
        0x75u8,
        0x73,
        0x65,
        0x72,
        0x5f,
        0x61,
        0x63,
        0x63,
        0x6f,
        0x75,
        0x6e,
        0x74,
        0x5f,
        0x70,
        0x64,
        0x61,
    ]
}

/// Produces the voter-account seed tag bytes.
pub fn user_account_seed_bytes() -> (v: Vec<u8>)
    ensures
        v@ == user_account_seed(),
{
    let v: Vec<u8> = vec![
        0x75u8,
        0x73,
        0x65,
        0x72,
        0x5f,
        0x61,
        0x63,
        0x63,
        0x6f,
        0x75,
        0x6e,
        0x74,
        0x5f,
        0x70,
        0x64,
        0x61,
    ];
    proof {
        assert(v@ =~= user_account_seed());
    }
    v
}

/// The address, as 32 raw bytes, that the host derives from the two seeds
/// and the program id — when a valid derivation exists at all.
pub uninterp spec fn pda_lookup(tag: Seq<u8>, seed2: Seq<u8>, program: Seq<u8>) -> Option<Seq<u8>>;

/// Relies on `solana_program::pubkey::Pubkey::try_find_program_address`:
/// the derived address is a deterministic function of the seeds and the
/// program id alone, is 32 bytes long, and `None` comes back only in the
/// statistically improbable case that no bump seed yields a valid address
/// (or when a seed exceeds the host's seed limits).
#[verifier::external_body]
pub(crate) fn try_find_pda(tag: &Vec<u8>, seed2: &Vec<u8>, program: &Vec<u8>) -> (r: Option<
    Vec<u8>,
>)
    requires
        program@.len() == 32,
    ensures
        match r {
            Some(v) => pda_lookup(tag@, seed2@, program@) == Some(v@) && v@.len() == 32,
            None => pda_lookup(tag@, seed2@, program@) is None,
        },
{
    let program_id = solana_program::pubkey::Pubkey::try_from(program.as_slice()).unwrap();
    let seeds: [&[u8]; 2] = [tag.as_slice(), seed2.as_slice()];
    match solana_program::pubkey::Pubkey::try_find_program_address(&seeds, &program_id) {
        Some((key, _bump)) => Some(key.to_bytes().to_vec()),
        None => None,
    }
}

/// The derived credit-account address of a voter, as 32 raw bytes.
pub open spec fn voter_pda(voter: Identity, program: Seq<u8>) -> Option<Seq<u8>> {
    pda_lookup(user_account_seed(), id_byte_seq(voter), program)
}

/// Computes a voter's derived credit-account address.
pub fn derive_voter_pda(voter: &Identity, program_bytes: &Vec<u8>) -> (r: Option<Vec<u8>>)
    requires
        program_bytes@.len() == 32,
    ensures
        match r {
            Some(v) => voter_pda(*voter, program_bytes@) == Some(v@) && v@.len() == 32,
            None => voter_pda(*voter, program_bytes@) is None,
        },
{
    let tag = user_account_seed_bytes();
    let vb = identity_to_bytes(voter);
    try_find_pda(&tag, &vb, program_bytes)
}

// ---------------------------------------------------------------------------
// Crediting the winning voters
// ---------------------------------------------------------------------------
/// Whether some voter of this block's winning candidate selects the given
/// address: the address derived from the voter equals it.
pub open spec fn winner_votes_for(b: BlockView, program: Seq<u8>, addr: Identity) -> bool {
    match winner_of(b) {
        Some(w) => exists|v: int|
            0 <= v < w.voters.len() && voter_pda(#[trigger] w.voters[v], program) == Some(
                id_byte_seq(addr),
            ),
        None => false,
    }
}

/// Whether any block of the snapshot has a winning voter whose derived
/// address equals the given address.
pub open spec fn matched_by_winner(snap: Seq<BlockView>, program: Seq<u8>, addr: Identity) -> bool {
    exists|k: int| 0 <= k < snap.len() && winner_votes_for(#[trigger] snap[k], program, addr)
}

/// Whether one supplied account is credited by a finalization pass: a
/// winning voter's derived address must select it, its owner must differ
/// from the submitter, and it must not have been credited for this or a
/// later period already.
pub open spec fn credit_eligible(
    snap: Seq<BlockView>,
    program: Seq<u8>,
    period: u64,
    submitter: Identity,
    a: SuppliedAccount,
) -> bool {
    &&& matched_by_winner(snap, program, a.address)
    &&& a.account.user != submitter
    &&& a.account.inblock < period
}

/// One supplied account after a finalization pass: credited once and
/// stamped with the period when eligible, untouched otherwise.
pub open spec fn credited_account(
    snap: Seq<BlockView>,
    program: Seq<u8>,
    period: u64,
    submitter: Identity,
    a: SuppliedAccount,
) -> SuppliedAccount {
    if credit_eligible(snap, program, period, submitter, a) {
        SuppliedAccount {
            address: a.address,
            account: UserAccountPda {
                user: a.account.user,
                credit: (a.account.credit + 1) as u64,
                debit: a.account.debit,
                inblock: period,
            },
        }
    } else {
        a
    }
}

/// Whether some voter of the winning candidate of `b` derives to `addr`.
fn block_winner_matches(b: &BlockEntry, program_bytes: &Vec<u8>, addr: &Identity) -> (r: bool)
    requires
        program_bytes@.len() == 32,
        total_votes(b@.hashes) <= MAX_ACCOUNT_DATA,
    ensures
        r == winner_votes_for(b@, program_bytes@, *addr),
{
    match winning_candidate(b) {
        Some(j) => {
            let ghost w = b@.hashes[j as int];
            let voters = &b.final_hashes[j].pubkeys;
            proof {
                assert(w.voters == voters@);
            }
            let addr_bytes = crate::ids::identity_to_bytes(addr);
            let mut v: usize = 0;
            while v < voters.len()
                invariant
                    v <= voters@.len(),
                    program_bytes@.len() == 32,
                    addr_bytes@ == id_byte_seq(*addr),
                    w.voters == voters@,
                    winner_of(b@) == Some(w),
                    forall|x: int|
                        0 <= x < v ==> voter_pda(#[trigger] w.voters[x], program_bytes@) != Some(
                            id_byte_seq(*addr),
                        ),
                decreases voters@.len() - v,
            {
                match derive_voter_pda(&voters[v], program_bytes) {
                    Some(pda_bytes) => {
                        if crate::ids::bytes_eq(&pda_bytes, &addr_bytes) {
                            assert(voter_pda(w.voters[v as int], program_bytes@) == Some(
                                id_byte_seq(*addr),
                            ));
                            return true;
                        }
                    },
                    None => {},
                }
                v += 1;
            }
            false
        },
        None => false,
    }
}

/// Whether any block of the snapshot has a winning voter deriving to the
/// address.
fn snapshot_matches(snap: &PDAAccount, program_bytes: &Vec<u8>, addr: &Identity) -> (r: bool)
    requires
        program_bytes@.len() == 32,
        records_size(snap@) <= MAX_ACCOUNT_DATA,
    ensures
        r == matched_by_winner(snap@, program_bytes@, *addr),
{
    let mut k: usize = 0;
    while k < snap.block_ids.len()
        invariant
            k <= snap.block_ids@.len(),
            program_bytes@.len() == 32,
            records_size(snap@) <= MAX_ACCOUNT_DATA,
            forall|x: int| 0 <= x < k ==> !winner_votes_for(#[trigger] snap@[x], program_bytes@, *addr),
        decreases snap.block_ids@.len() - k,
    {
        proof {
            lemma_total_votes_bounded(snap@, k as int);
            assert(snap@[k as int] == snap.block_ids@[k as int]@);
        }
        if block_winner_matches(&snap.block_ids[k], program_bytes, addr) {
            return true;
        }
        k += 1;
    }
    false
}

/// Walks a sealed snapshot of a prior ledger, finds each block's majority
/// winner, and credits every caller-supplied account that a winning
/// voter's derived address selects — skipping accounts owned by the
/// submitter and accounts already credited for this or a later period.
/// Each account is credited at most once per call. Fails with `NotFound`
/// exactly when the snapshot holds no block records at all; a block
/// without a majority simply credits nobody.
pub fn finalize_and_credit(
    snapshot: &PDAAccount,
    current_period: u64,
    submitter: Identity,
    accounts: &mut Vec<SuppliedAccount>,
    program_id: &Identity,
) -> (r: Result<(), ErrorCode>)
    requires
        pda_wf(*snapshot),
        records_size(snapshot@) <= MAX_ACCOUNT_DATA,
        forall|i: int|
            0 <= i < old(accounts)@.len() ==> (#[trigger] old(accounts)@[i]).account.credit
                < u64::MAX,
    ensures
        match r {
            Ok(()) => {
                &&& snapshot@.len() > 0
                &&& final(accounts)@.len() == old(accounts)@.len()
                &&& forall|i: int|
                    0 <= i < old(accounts)@.len() ==> final(accounts)@[i] == credited_account(
                        snapshot@,
                        id_byte_seq(*program_id),
                        current_period,
                        submitter,
                        #[trigger] old(accounts)@[i],
                    )
            },
            Err(e) => {
                &&& e == ErrorCode::NotFound
                &&& snapshot@.len() == 0
                &&& *final(accounts) == *old(accounts)
            },
        },
{
    if snapshot.block_ids.len() == 0 {
        return Err(ErrorCode::NotFound);
    }
    let program_bytes = identity_to_bytes(program_id);
    let ghost pv = id_byte_seq(*program_id);
    let mut i: usize = 0;
    while i < accounts.len()
        invariant
            i <= accounts@.len(),
            accounts@.len() == old(accounts)@.len(),
            program_bytes@ == pv,
            pv.len() == 32,
            records_size(snapshot@) <= MAX_ACCOUNT_DATA,
            forall|x: int|
                0 <= x < old(accounts)@.len() ==> (#[trigger] old(accounts)@[x]).account.credit
                    < u64::MAX,
            forall|x: int|
                i <= x < accounts@.len() ==> accounts@[x] == #[trigger] old(accounts)@[x],
            forall|x: int|
                0 <= x < i ==> accounts@[x] == credited_account(
                    snapshot@,
                    pv,
                    current_period,
                    submitter,
                    #[trigger] old(accounts)@[x],
                ),
        decreases accounts@.len() - i,
    {
        let matched = snapshot_matches(snapshot, &program_bytes, &accounts[i].address);
        let eligible = matched && !(accounts[i].account.user == submitter)
            && accounts[i].account.inblock < current_period;
        if eligible {
            proof {
                assert(accounts@[i as int] == old(accounts)@[i as int]);
            }
            let a = &mut accounts[i];
            a.account.credit = a.account.credit + 1;
            a.account.inblock = current_period;
        }
        i += 1;
    }
    Ok(())
}

// ---------------------------------------------------------------------------
// Laws of the finalization pass
// ---------------------------------------------------------------------------
/// Double-credit guard: finalizing twice for the same period credits each
/// account at most once — the second pass leaves every account unchanged.
pub proof fn lemma_finalize_idempotent(
    snap: Seq<BlockView>,
    program: Seq<u8>,
    period: u64,
    submitter: Identity,
    a: SuppliedAccount,
)
    ensures
        credited_account(
            snap,
            program,
            period,
            submitter,
            credited_account(snap, program, period, submitter, a),
        ) == credited_account(snap, program, period, submitter, a),
{
}

/// Self-credit guard: an account owned by the submitting identity is
/// never credited, whatever the snapshot holds.
pub proof fn lemma_no_self_credit(
    snap: Seq<BlockView>,
    program: Seq<u8>,
    period: u64,
    submitter: Identity,
    a: SuppliedAccount,
)
    requires
        a.account.user == submitter,
    ensures
        credited_account(snap, program, period, submitter, a) == a,
{
}

} // verus!
