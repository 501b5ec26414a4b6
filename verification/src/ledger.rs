use crate::errors::ErrorCode;
use crate::growth::{
    config_wf, ensure_capacity, grow_step, grown_capacity, needs_growth, rent_exempt_minimum,
    rent_minimum_balance, target_capacity, GrowthConfig, MAX_ACCOUNT_DATA,
};
use crate::ids::{contains_identity, digest_of, normalize_digest, Identity};
use vstd::prelude::*;

verus! {

// Serialized layout: a stored record begins with a fixed 8-byte type tag;
// every variable-length list is preceded by a 4-byte length; a value digest
// is 8 bytes, a voter count 8 bytes, an identity 32 bytes.
pub const TAG_SIZE: u64 = 8;

pub const BLOCK_ID_SIZE: u64 = 8;

pub const LEN_PREFIX_SIZE: u64 = 4;

pub const VALUE_SIZE: u64 = 8;

pub const COUNT_SIZE: u64 = 8;

pub const IDENTITY_SIZE: u64 = 32;

/// One observed value inside a block: the 8-byte digest (packed into a
/// word), the distinct voters that backed it, and a count that is kept
/// equal to the number of voters at all times.
#[derive(Clone, Debug)]
pub struct FinalHashEntry {
    pub final_hash: u64,
    pub pubkeys: Vec<Identity>,
    pub count: u64,
}

/// All observed values for one period id.
#[derive(Clone, Debug)]
pub struct BlockEntry {
    pub block_id: u64,
    pub final_hashes: Vec<FinalHashEntry>,
}

/// The record list stored in a ledger account, in insertion order.
#[derive(Clone, Debug)]
pub struct PDAAccount {
    pub block_ids: Vec<BlockEntry>,
}

/// The mathematical image of a `FinalHashEntry`: the digest and the voter
/// sequence. The stored count is tied to the voter sequence by
/// well-formedness, so the view does not repeat it.
#[verifier::ext_equal]
pub ghost struct CandidateView {
    pub value: u64,
    pub voters: Seq<Identity>,
}

/// The mathematical image of a `BlockEntry`.
#[verifier::ext_equal]
pub ghost struct BlockView {
    pub block_id: u64,
    pub hashes: Seq<CandidateView>,
}

impl View for FinalHashEntry {
    type V = CandidateView;

    open spec fn view(&self) -> CandidateView {
        CandidateView { value: self.final_hash, voters: self.pubkeys@ }
    }
}

/// The candidate views of a candidate list.
pub open spec fn hashes_view(hs: Seq<FinalHashEntry>) -> Seq<CandidateView> {
    hs.map_values(|h: FinalHashEntry| h@)
}

/// The block views of a block list.
pub open spec fn blocks_view(bs: Seq<BlockEntry>) -> Seq<BlockView> {
    bs.map_values(|b: BlockEntry| b@)
}

impl View for BlockEntry {
    type V = BlockView;

    open spec fn view(&self) -> BlockView {
        BlockView { block_id: self.block_id, hashes: hashes_view(self.final_hashes@) }
    }
}

impl View for PDAAccount {
    type V = Seq<BlockView>;

    open spec fn view(&self) -> Seq<BlockView> {
        blocks_view(self.block_ids@)
    }
}

/// No identity occurs twice.
pub open spec fn distinct_identities(s: Seq<Identity>) -> bool {
    forall|i: int, j: int| 0 <= i < j < s.len() ==> s[i] != s[j]
}

/// A candidate holds at least one voter, each at most once.
pub open spec fn candidate_view_wf(c: CandidateView) -> bool {
    &&& c.voters.len() >= 1
    &&& distinct_identities(c.voters)
}

/// Within one block every candidate is well formed and every digest is
/// distinct.
pub open spec fn block_view_wf(b: BlockView) -> bool {
    &&& b.hashes.len() >= 1
    &&& forall|i: int, j: int|
        0 <= i < j < b.hashes.len() ==> b.hashes[i].value != b.hashes[j].value
    &&& forall|i: int| 0 <= i < b.hashes.len() ==> candidate_view_wf(#[trigger] b.hashes[i])
}

/// Every block is well formed and keyed by a distinct period id.
pub open spec fn records_wf(bs: Seq<BlockView>) -> bool {
    &&& forall|i: int, j: int| 0 <= i < j < bs.len() ==> bs[i].block_id != bs[j].block_id
    &&& forall|i: int| 0 <= i < bs.len() ==> block_view_wf(#[trigger] bs[i])
}

/// The stored count of one candidate equals its voter-set cardinality.
pub open spec fn entry_counts_wf(h: FinalHashEntry) -> bool {
    h.count == h.pubkeys@.len()
}

/// Every stored count within a block is accurate.
pub open spec fn block_counts_wf(b: BlockEntry) -> bool {
    forall|j: int|
        0 <= j < b.final_hashes@.len() ==> entry_counts_wf(#[trigger] b.final_hashes@[j])
}

/// The stored counts mirror the voter-set cardinalities exactly.
pub open spec fn counts_wf(p: PDAAccount) -> bool {
    forall|i: int| 0 <= i < p.block_ids@.len() ==> block_counts_wf(#[trigger] p.block_ids@[i])
}

/// A well-formed record list.
pub open spec fn pda_wf(p: PDAAccount) -> bool {
    &&& records_wf(p@)
    &&& counts_wf(p)
}

// ---------------------------------------------------------------------------
// Serialized size
// ---------------------------------------------------------------------------
/// Exact serialized size of one candidate record.
pub open spec fn candidate_size(c: CandidateView) -> int {
    VALUE_SIZE + COUNT_SIZE + LEN_PREFIX_SIZE + IDENTITY_SIZE * c.voters.len()
}

/// Exact serialized size of a candidate list (without its length prefix).
pub open spec fn hashes_size(hs: Seq<CandidateView>) -> int
    decreases hs.len(),
{
    if hs.len() == 0 {
        0
    } else {
        hashes_size(hs.drop_last()) + candidate_size(hs.last())
    }
}

/// Exact serialized size of one block record.
pub open spec fn block_size(b: BlockView) -> int {
    BLOCK_ID_SIZE + LEN_PREFIX_SIZE + hashes_size(b.hashes)
}

/// Exact serialized size of a block list (without tag or length prefix).
pub open spec fn blocks_size(bs: Seq<BlockView>) -> int
    decreases bs.len(),
{
    if bs.len() == 0 {
        0
    } else {
        blocks_size(bs.drop_last()) + block_size(bs.last())
    }
}

/// Exact serialized size of the whole record list, type tag included.
pub open spec fn records_size(bs: Seq<BlockView>) -> int {
    TAG_SIZE + LEN_PREFIX_SIZE + blocks_size(bs)
}

// ---------------------------------------------------------------------------
// Locating blocks and candidates
// ---------------------------------------------------------------------------
/// Index of the first block with the given period id, if any.
pub open spec fn find_block(bs: Seq<BlockView>, id: u64) -> Option<int>
    decreases bs.len(),
{
    if bs.len() == 0 {
        None
    } else if bs[0].block_id == id {
        Some(0int)
    } else {
        match find_block(bs.drop_first(), id) {
            Some(i) => Some(i + 1),
            None => None,
        }
    }
}

/// Index of the first candidate with the given digest, if any.
pub open spec fn find_value(hs: Seq<CandidateView>, d: u64) -> Option<int>
    decreases hs.len(),
{
    if hs.len() == 0 {
        None
    } else if hs[0].value == d {
        Some(0int)
    } else {
        match find_value(hs.drop_first(), d) {
            Some(i) => Some(i + 1),
            None => None,
        }
    }
}

/// What `find_block` returns: the first index whose block carries the id.
pub proof fn lemma_find_block_char(bs: Seq<BlockView>, id: u64)
    ensures
        match find_block(bs, id) {
            Some(i) => 0 <= i < bs.len() && bs[i].block_id == id && forall|j: int|
                0 <= j < i ==> bs[j].block_id != id,
            None => forall|j: int| 0 <= j < bs.len() ==> bs[j].block_id != id,
        },
    decreases bs.len(),
{
    if bs.len() > 0 && bs[0].block_id != id {
        let rest = bs.drop_first();
        lemma_find_block_char(rest, id);
        match find_block(rest, id) {
            Some(i) => {
                assert(bs[i + 1] == rest[i]);
                assert forall|j: int| 0 <= j < i + 1 implies bs[j].block_id != id by {
                    if j > 0 {
                        assert(bs[j] == rest[j - 1]);
                    }
                }
            },
            None => {
                assert forall|j: int| 0 <= j < bs.len() implies bs[j].block_id != id by {
                    if j > 0 {
                        assert(bs[j] == rest[j - 1]);
                    }
                }
            },
        }
    }
}

/// What `find_value` returns: the first index whose candidate carries the
/// digest.
pub proof fn lemma_find_value_char(hs: Seq<CandidateView>, d: u64)
    ensures
        match find_value(hs, d) {
            Some(i) => 0 <= i < hs.len() && hs[i].value == d && forall|j: int|
                0 <= j < i ==> hs[j].value != d,
            None => forall|j: int| 0 <= j < hs.len() ==> hs[j].value != d,
        },
    decreases hs.len(),
{
    if hs.len() > 0 && hs[0].value != d {
        let rest = hs.drop_first();
        lemma_find_value_char(rest, d);
        match find_value(rest, d) {
            Some(i) => {
                assert(hs[i + 1] == rest[i]);
                assert forall|j: int| 0 <= j < i + 1 implies hs[j].value != d by {
                    if j > 0 {
                        assert(hs[j] == rest[j - 1]);
                    }
                }
            },
            None => {
                assert forall|j: int| 0 <= j < hs.len() implies hs[j].value != d by {
                    if j > 0 {
                        assert(hs[j] == rest[j - 1]);
                    }
                }
            },
        }
    }
}

// ---------------------------------------------------------------------------
// The append transition
// ---------------------------------------------------------------------------
/// A candidate after one vote: the voter joins the set unless already a
/// member, in which case nothing changes.
pub open spec fn candidate_after_vote(c: CandidateView, voter: Identity) -> CandidateView {
    if c.voters.contains(voter) {
        c
    } else {
        CandidateView { value: c.value, voters: c.voters.push(voter) }
    }
}

/// A block after one vote for digest `d`: the matching candidate takes the
/// vote, or a fresh singleton candidate is appended.
pub open spec fn block_after_vote(b: BlockView, d: u64, voter: Identity) -> BlockView {
    match find_value(b.hashes, d) {
        Some(j) => BlockView {
            block_id: b.block_id,
            hashes: b.hashes.update(j, candidate_after_vote(b.hashes[j], voter)),
        },
        None => BlockView {
            block_id: b.block_id,
            hashes: b.hashes.push(CandidateView { value: d, voters: seq![voter] }),
        },
    }
}

/// The record list after one vote: the block for `period` takes it, or a
/// fresh block is appended at the end.
pub open spec fn records_after_vote(
    bs: Seq<BlockView>,
    period: u64,
    d: u64,
    voter: Identity,
) -> Seq<BlockView> {
    match find_block(bs, period) {
        Some(i) => bs.update(i, block_after_vote(bs[i], d, voter)),
        None => bs.push(
            BlockView {
                block_id: period,
                hashes: seq![CandidateView { value: d, voters: seq![voter] }],
            },
        ),
    }
}

/// How many serialized bytes one vote adds: nothing for a duplicate, one
/// identity for a new voter, a candidate record for a new value, and a block
/// record around it for a new period.
pub open spec fn append_delta(bs: Seq<BlockView>, period: u64, d: u64, voter: Identity) -> int {
    match find_block(bs, period) {
        Some(i) => match find_value(bs[i].hashes, d) {
            Some(j) => if bs[i].hashes[j].voters.contains(voter) {
                0
            } else {
                IDENTITY_SIZE as int
            },
            None => VALUE_SIZE + COUNT_SIZE + LEN_PREFIX_SIZE + IDENTITY_SIZE,
        },
        None => BLOCK_ID_SIZE + LEN_PREFIX_SIZE + VALUE_SIZE + COUNT_SIZE + LEN_PREFIX_SIZE
            + IDENTITY_SIZE,
    }
}

// ---------------------------------------------------------------------------
// Locating records at run time
// ---------------------------------------------------------------------------
/// Index of the first block carrying `id`, if any.
pub fn find_block_index(blocks: &Vec<BlockEntry>, id: u64) -> (r: Option<usize>)
    ensures
        match r {
            Some(i) => i < blocks@.len() && find_block(blocks_view(blocks@), id) == Some(i as int),
            None => find_block(blocks_view(blocks@), id) is None,
        },
{
    proof {
        lemma_find_block_char(blocks_view(blocks@), id);
    }
    let mut i: usize = 0;
    while i < blocks.len()
        invariant
            i <= blocks@.len(),
            forall|j: int| 0 <= j < i ==> blocks_view(blocks@)[j].block_id != id,
        decreases blocks@.len() - i,
    {
        if blocks[i].block_id == id {
            proof {
                lemma_find_block_char(blocks_view(blocks@), id);
                assert(blocks_view(blocks@)[i as int].block_id == id);
            }
            return Some(i);
        }
        assert(blocks_view(blocks@)[i as int].block_id != id);
        i += 1;
    }
    None
}

/// Index of the first candidate carrying digest `d`, if any.
pub fn find_value_index(hs: &Vec<FinalHashEntry>, d: u64) -> (r: Option<usize>)
    ensures
        match r {
            Some(j) => j < hs@.len() && find_value(hashes_view(hs@), d) == Some(j as int),
            None => find_value(hashes_view(hs@), d) is None,
        },
{
    proof {
        lemma_find_value_char(hashes_view(hs@), d);
    }
    let mut j: usize = 0;
    while j < hs.len()
        invariant
            j <= hs@.len(),
            forall|k: int| 0 <= k < j ==> hashes_view(hs@)[k].value != d,
        decreases hs@.len() - j,
    {
        if hs[j].final_hash == d {
            proof {
                lemma_find_value_char(hashes_view(hs@), d);
                assert(hashes_view(hs@)[j as int].value == d);
            }
            return Some(j);
        }
        assert(hashes_view(hs@)[j as int].value != d);
        j += 1;
    }
    None
}

// ---------------------------------------------------------------------------
// Appending a vote
// ---------------------------------------------------------------------------
/// Records one vote on a candidate and refreshes its stored count from the
/// voter-set cardinality, so duplicate submissions cause no count drift.
pub fn vote_on_candidate(c: &mut FinalHashEntry, voter: Identity)
    ensures
        final(c)@ == candidate_after_vote(old(c)@, voter),
        entry_counts_wf(*final(c)),
        final(c).final_hash == old(c).final_hash,
{
    if !contains_identity(&c.pubkeys, voter) {
        c.pubkeys.push(voter);
    }
    c.count = c.pubkeys.len() as u64;
}

/// Records one vote for digest `d` within a block.
pub fn vote_on_block(b: &mut BlockEntry, d: u64, voter: Identity)
    requires
        block_counts_wf(*old(b)),
    ensures
        final(b)@ == block_after_vote(old(b)@, d, voter),
        block_counts_wf(*final(b)),
        final(b).block_id == old(b).block_id,
{
    match find_value_index(&b.final_hashes, d) {
        Some(j) => {
            let c = &mut b.final_hashes[j];
            vote_on_candidate(c, voter);
            proof {
                assert(b@.hashes =~= block_after_vote(old(b)@, d, voter).hashes);
            }
        },
        None => {
            let mut voters: Vec<Identity> = Vec::new();
            voters.push(voter);
            b.final_hashes.push(FinalHashEntry { final_hash: d, pubkeys: voters, count: 1 });
            proof {
                assert(b@.hashes =~~= block_after_vote(old(b)@, d, voter).hashes);
            }
        },
    }
}

/// Records one vote for `(period, d)` in the record list: the operation of
/// the ledger store, deduplicating by period, digest and voter.
pub fn append_record(p: &mut PDAAccount, period: u64, d: u64, voter: Identity)
    requires
        pda_wf(*old(p)),
    ensures
        final(p)@ == records_after_vote(old(p)@, period, d, voter),
        pda_wf(*final(p)),
{
    match find_block_index(&p.block_ids, period) {
        Some(i) => {
            let b = &mut p.block_ids[i];
            vote_on_block(b, d, voter);
            proof {
                assert(p@ =~= records_after_vote(old(p)@, period, d, voter));
            }
        },
        None => {
            let mut voters: Vec<Identity> = Vec::new();
            voters.push(voter);
            let mut hs: Vec<FinalHashEntry> = Vec::new();
            hs.push(FinalHashEntry { final_hash: d, pubkeys: voters, count: 1 });
            p.block_ids.push(BlockEntry { block_id: period, final_hashes: hs });
            proof {
                assert(p@ =~~= records_after_vote(old(p)@, period, d, voter));
            }
        },
    }
    proof {
        lemma_records_after_vote_wf(old(p)@, period, d, voter);
        assert(counts_wf(*p));
    }
}

/// Appending preserves well-formedness of the record list.
pub proof fn lemma_records_after_vote_wf(bs: Seq<BlockView>, period: u64, d: u64, voter: Identity)
    requires
        records_wf(bs),
    ensures
        records_wf(records_after_vote(bs, period, d, voter)),
{
    lemma_find_block_char(bs, period);
    let bs1 = records_after_vote(bs, period, d, voter);
    match find_block(bs, period) {
        Some(i) => {
            lemma_find_value_char(bs[i].hashes, d);
            let b1 = block_after_vote(bs[i], d, voter);
            assert(block_view_wf(b1)) by {
                match find_value(bs[i].hashes, d) {
                    Some(j) => {
                        let c1 = candidate_after_vote(bs[i].hashes[j], voter);
                        assert(candidate_view_wf(c1));
                    },
                    None => {},
                }
            }
            assert forall|k: int| 0 <= k < bs1.len() implies block_view_wf(#[trigger] bs1[k]) by {
                if k != i {
                    assert(bs1[k] == bs[k]);
                }
            }
        },
        None => {
            assert forall|k: int| 0 <= k < bs1.len() implies block_view_wf(#[trigger] bs1[k]) by {
                if k < bs.len() {
                    assert(bs1[k] == bs[k]);
                }
            }
        },
    }
}

// ---------------------------------------------------------------------------
// Size accounting
// ---------------------------------------------------------------------------
pub proof fn lemma_hashes_size_push(hs: Seq<CandidateView>, c: CandidateView)
    ensures
        hashes_size(hs.push(c)) == hashes_size(hs) + candidate_size(c),
{
    assert(hs.push(c).drop_last() =~= hs);
}

pub proof fn lemma_hashes_size_update(hs: Seq<CandidateView>, j: int, c: CandidateView)
    requires
        0 <= j < hs.len(),
    ensures
        hashes_size(hs.update(j, c)) == hashes_size(hs) - candidate_size(hs[j]) + candidate_size(
            c,
        ),
    decreases hs.len(),
{
    let hs1 = hs.update(j, c);
    if j == hs.len() - 1 {
        assert(hs1.drop_last() =~= hs.drop_last());
        assert(hs1.last() == c);
    } else {
        assert(hs1.drop_last() =~= hs.drop_last().update(j, c));
        assert(hs1.last() == hs.last());
        lemma_hashes_size_update(hs.drop_last(), j, c);
    }
}

pub proof fn lemma_blocks_size_push(bs: Seq<BlockView>, b: BlockView)
    ensures
        blocks_size(bs.push(b)) == blocks_size(bs) + block_size(b),
{
    assert(bs.push(b).drop_last() =~= bs);
}

pub proof fn lemma_blocks_size_update(bs: Seq<BlockView>, i: int, b: BlockView)
    requires
        0 <= i < bs.len(),
    ensures
        blocks_size(bs.update(i, b)) == blocks_size(bs) - block_size(bs[i]) + block_size(b),
    decreases bs.len(),
{
    let bs1 = bs.update(i, b);
    if i == bs.len() - 1 {
        assert(bs1.drop_last() =~= bs.drop_last());
        assert(bs1.last() == b);
    } else {
        assert(bs1.drop_last() =~= bs.drop_last().update(i, b));
        assert(bs1.last() == bs.last());
        lemma_blocks_size_update(bs.drop_last(), i, b);
    }
}

/// One vote grows the serialized record list by exactly `append_delta`.
pub proof fn lemma_records_size_after_vote(bs: Seq<BlockView>, period: u64, d: u64, voter: Identity)
    ensures
        records_size(records_after_vote(bs, period, d, voter)) == records_size(bs) + append_delta(
            bs,
            period,
            d,
            voter,
        ),
{
    lemma_find_block_char(bs, period);
    match find_block(bs, period) {
        Some(i) => {
            lemma_find_value_char(bs[i].hashes, d);
            let b1 = block_after_vote(bs[i], d, voter);
            lemma_blocks_size_update(bs, i, b1);
            match find_value(bs[i].hashes, d) {
                Some(j) => {
                    let c1 = candidate_after_vote(bs[i].hashes[j], voter);
                    lemma_hashes_size_update(bs[i].hashes, j, c1);
                },
                None => {
                    lemma_hashes_size_push(
                        bs[i].hashes,
                        CandidateView { value: d, voters: seq![voter] },
                    );
                },
            }
        },
        None => {
            let c = CandidateView { value: d, voters: seq![voter] };
            let nb = BlockView { block_id: period, hashes: seq![c] };
            lemma_blocks_size_push(bs, nb);
            let s1 = seq![c];
            assert(s1.drop_last() =~= Seq::<CandidateView>::empty());
            assert(hashes_size(s1.drop_last()) == 0);
            assert(s1.last() == c);
            assert(hashes_size(s1) == candidate_size(c));
        },
    }
}

// ---------------------------------------------------------------------------
// Stability of record positions
// ---------------------------------------------------------------------------
pub proof fn lemma_find_block_update(bs: Seq<BlockView>, i: int, b: BlockView, id: u64)
    requires
        0 <= i < bs.len(),
        b.block_id == bs[i].block_id,
    ensures
        find_block(bs.update(i, b), id) == find_block(bs, id),
    decreases bs.len(),
{
    let bs1 = bs.update(i, b);
    if i == 0 {
        assert(bs1.drop_first() =~= bs.drop_first());
    } else {
        assert(bs1[0] == bs[0]);
        assert(bs1.drop_first() =~= bs.drop_first().update(i - 1, b));
        lemma_find_block_update(bs.drop_first(), i - 1, b, id);
    }
}

pub proof fn lemma_find_block_push(bs: Seq<BlockView>, b: BlockView, id: u64)
    ensures
        find_block(bs.push(b), id) == (match find_block(bs, id) {
            Some(i) => Some(i),
            None => if b.block_id == id {
                Some(bs.len() as int)
            } else {
                None
            },
        }),
    decreases bs.len(),
{
    let p = bs.push(b);
    if bs.len() == 0 {
        assert(p[0] == b);
        assert(p.drop_first() =~= Seq::<BlockView>::empty());
        assert(find_block(p.drop_first(), id) is None);
        if b.block_id == id {
            assert(find_block(p, id) == Some(0int));
        } else {
            assert(find_block(p, id) is None);
        }
    } else {
        assert(p[0] == bs[0]);
        assert(p.drop_first() =~= bs.drop_first().push(b));
        lemma_find_block_push(bs.drop_first(), b, id);
        if bs[0].block_id == id {
            assert(find_block(p, id) == Some(0int));
            assert(find_block(bs, id) == Some(0int));
        } else {
            assert(find_block(p, id) == (match find_block(bs.drop_first().push(b), id) {
                Some(i) => Some(i + 1),
                None => None,
            }));
        }
    }
}

pub proof fn lemma_find_value_update(hs: Seq<CandidateView>, j: int, c: CandidateView, d: u64)
    requires
        0 <= j < hs.len(),
        c.value == hs[j].value,
    ensures
        find_value(hs.update(j, c), d) == find_value(hs, d),
    decreases hs.len(),
{
    let hs1 = hs.update(j, c);
    if j == 0 {
        assert(hs1.drop_first() =~= hs.drop_first());
    } else {
        assert(hs1[0] == hs[0]);
        assert(hs1.drop_first() =~= hs.drop_first().update(j - 1, c));
        lemma_find_value_update(hs.drop_first(), j - 1, c, d);
    }
}

pub proof fn lemma_find_value_push(hs: Seq<CandidateView>, c: CandidateView, d: u64)
    ensures
        find_value(hs.push(c), d) == (match find_value(hs, d) {
            Some(j) => Some(j),
            None => if c.value == d {
                Some(hs.len() as int)
            } else {
                None
            },
        }),
    decreases hs.len(),
{
    let p = hs.push(c);
    if hs.len() == 0 {
        assert(p[0] == c);
        assert(p.drop_first() =~= Seq::<CandidateView>::empty());
        assert(find_value(p.drop_first(), d) is None);
        if c.value == d {
            assert(find_value(p, d) == Some(0int));
        } else {
            assert(find_value(p, d) is None);
        }
    } else {
        assert(p[0] == hs[0]);
        assert(p.drop_first() =~= hs.drop_first().push(c));
        lemma_find_value_push(hs.drop_first(), c, d);
        if hs[0].value == d {
            assert(find_value(p, d) == Some(0int));
            assert(find_value(hs, d) == Some(0int));
        } else {
            assert(find_value(p, d) == (match find_value(hs.drop_first().push(c), d) {
                Some(j) => Some(j + 1),
                None => None,
            }));
        }
    }
}

// ---------------------------------------------------------------------------
// Laws of the append transition
// ---------------------------------------------------------------------------
/// Idempotence: appending the same `(period, digest, voter)` a second time
/// changes nothing — the matching candidate's voter set and count stay
/// exactly as after the first append.
pub proof fn lemma_append_idempotent(bs: Seq<BlockView>, period: u64, d: u64, voter: Identity)
    ensures
        records_after_vote(records_after_vote(bs, period, d, voter), period, d, voter)
            == records_after_vote(bs, period, d, voter),
{
    lemma_find_block_char(bs, period);
    let bs1 = records_after_vote(bs, period, d, voter);
    match find_block(bs, period) {
        Some(i) => {
            let b1 = block_after_vote(bs[i], d, voter);
            lemma_find_block_update(bs, i, b1, period);
            assert(find_block(bs1, period) == Some(i));
            assert(bs1[i] == b1);
            lemma_find_value_char(bs[i].hashes, d);
            match find_value(bs[i].hashes, d) {
                Some(j) => {
                    let c1 = candidate_after_vote(bs[i].hashes[j], voter);
                    lemma_find_value_update(bs[i].hashes, j, c1, d);
                    assert(find_value(b1.hashes, d) == Some(j));
                    assert(b1.hashes[j] == c1);
                    assert(c1.voters.contains(voter)) by {
                        if !bs[i].hashes[j].voters.contains(voter) {
                            assert(c1.voters.last() == voter);
                        }
                    }
                    assert(candidate_after_vote(c1, voter) == c1);
                    assert(b1.hashes.update(j, c1) =~= b1.hashes);
                    assert(block_after_vote(b1, d, voter) == b1);
                    assert(bs1.update(i, b1) =~= bs1);
                },
                None => {
                    let c = CandidateView { value: d, voters: seq![voter] };
                    lemma_find_value_push(bs[i].hashes, c, d);
                    let j = bs[i].hashes.len() as int;
                    assert(find_value(b1.hashes, d) == Some(j));
                    assert(b1.hashes[j] == c);
                    assert(c.voters[0] == voter);
                    assert(c.voters.contains(voter));
                    assert(candidate_after_vote(c, voter) == c);
                    assert(b1.hashes.update(j, c) =~= b1.hashes);
                    assert(block_after_vote(b1, d, voter) == b1);
                    assert(bs1.update(i, b1) =~= bs1);
                },
            }
        },
        None => {
            let c = CandidateView { value: d, voters: seq![voter] };
            let nb = BlockView { block_id: period, hashes: seq![c] };
            lemma_find_block_push(bs, nb, period);
            let i = bs.len() as int;
            assert(find_block(bs1, period) == Some(i));
            assert(bs1[i] == nb);
            assert(nb.hashes[0].value == d);
            assert(find_value(nb.hashes, d) == Some(0int));
            assert(c.voters[0] == voter);
            assert(c.voters.contains(voter));
            assert(candidate_after_vote(c, voter) == c);
            assert(nb.hashes.update(0, c) =~= nb.hashes);
            assert(block_after_vote(nb, d, voter) == nb);
            assert(bs1.update(i, nb) =~= bs1);
        },
    }
}

/// Isolation: one vote never touches blocks of other periods, and within
/// the target period it never touches candidates holding other digests;
/// fresh records only ever appear at the end of their list.
pub proof fn lemma_append_isolated(bs: Seq<BlockView>, period: u64, d: u64, voter: Identity)
    ensures
        records_after_vote(bs, period, d, voter).len() >= bs.len(),
        forall|k: int|
            0 <= k < bs.len() && bs[k].block_id != period ==> records_after_vote(
                bs,
                period,
                d,
                voter,
            )[k] == bs[k],
        match find_block(bs, period) {
            Some(i) => {
                let b1 = records_after_vote(bs, period, d, voter)[i];
                &&& b1.hashes.len() >= bs[i].hashes.len()
                &&& forall|j: int|
                    0 <= j < bs[i].hashes.len() && bs[i].hashes[j].value != d ==> b1.hashes[j]
                        == bs[i].hashes[j]
            },
            None => records_after_vote(bs, period, d, voter).len() == bs.len() + 1,
        },
{
    lemma_find_block_char(bs, period);
    let bs1 = records_after_vote(bs, period, d, voter);
    match find_block(bs, period) {
        Some(i) => {
            lemma_find_value_char(bs[i].hashes, d);
            assert forall|k: int|
                0 <= k < bs.len() && bs[k].block_id != period implies bs1[k] == bs[k] by {
                assert(k != i);
            }
        },
        None => {},
    }
}

// ---------------------------------------------------------------------------
// The ledger account
// ---------------------------------------------------------------------------
/// A ledger account: the stored record list together with the host-side
/// account state — serialized size, allocated capacity and funding balance —
/// that the growth policy keeps consistent with it.
#[derive(Clone, Debug)]
pub struct Ledger {
    /// The stored record list.
    pub records: PDAAccount,
    /// Exact serialized byte length of `records`.
    pub data_size: u64,
    /// Currently allocated backing storage, in bytes.
    pub capacity: u64,
    /// Current funding balance, in lamports.
    pub lamports: u64,
}

/// The ledger invariant: well-formed records, a size counter that equals
/// the exact serialized length, and enough permitted capacity to hold it.
pub open spec fn ledger_wf(l: Ledger) -> bool {
    &&& pda_wf(l.records)
    &&& l.data_size == records_size(l.records@)
    &&& l.data_size <= l.capacity
    &&& l.capacity <= MAX_ACCOUNT_DATA
}

/// Creates the empty ledger for a fresh period range: no records, storage
/// sized exactly for the empty record list, and funding at the rent-exempt
/// minimum for that size.
pub fn initialize_pda() -> (l: Ledger)
    ensures
        ledger_wf(l),
        l.records@ == Seq::<BlockView>::empty(),
        l.data_size == TAG_SIZE + LEN_PREFIX_SIZE,
        l.capacity == l.data_size,
        l.lamports == rent_exempt_minimum(l.capacity as int),
{
    let records = PDAAccount { block_ids: Vec::new() };
    let size: u64 = TAG_SIZE + LEN_PREFIX_SIZE;
    let lamports = rent_minimum_balance(size);
    proof {
        assert(records@ =~= Seq::<BlockView>::empty());
    }
    Ledger { records, data_size: size, capacity: size, lamports }
}

/// The shortfall a funding balance of `lamports` must make up to reach the
/// minimum `m`.
pub open spec fn top_up_for(lamports: int, m: int) -> int {
    if m > lamports {
        m - lamports
    } else {
        0
    }
}

/// What a successful `append_vote` leaves behind: the record list after
/// the vote, the exact new serialized size, the capacity the growth policy
/// settles on, and — only when a growth step ran — funding topped up to
/// the rent-exempt minimum of the new capacity, drawn from the payer.
pub open spec fn append_vote_ok(
    pre: Ledger,
    cfg: GrowthConfig,
    period: u64,
    value_bytes: Seq<u8>,
    voter: Identity,
    post: Ledger,
    payer_pre: u64,
    payer_post: u64,
) -> bool {
    let d = digest_of(value_bytes);
    let bs1 = records_after_vote(pre.records@, period, d, voter);
    let ns = records_size(bs1);
    &&& post.records@ == bs1
    &&& post.data_size == ns
    &&& Some(post.capacity as int) == target_capacity(cfg, ns as u64, pre.capacity)
    &&& if needs_growth(cfg, ns, pre.capacity as int) {
        &&& post.lamports == pre.lamports + top_up_for(
            pre.lamports as int,
            rent_exempt_minimum(post.capacity as int),
        )
        &&& payer_post == payer_pre - top_up_for(
            pre.lamports as int,
            rent_exempt_minimum(post.capacity as int),
        )
    } else {
        &&& post.lamports == pre.lamports
        &&& payer_post == payer_pre
    }
}

/// The error a call to `append_vote` must fail with, or `None` when it is
/// owed success: `ResizeFailure` exactly when no permitted capacity can
/// hold the grown record list under the policy, else `FundingFailure`
/// exactly when the payer cannot cover the required top-up.
pub open spec fn append_vote_err(
    pre: Ledger,
    cfg: GrowthConfig,
    period: u64,
    value_bytes: Seq<u8>,
    voter: Identity,
    payer_pre: u64,
) -> Option<ErrorCode> {
    let d = digest_of(value_bytes);
    let ns = records_size(records_after_vote(pre.records@, period, d, voter));
    if ns > MAX_ACCOUNT_DATA {
        Some(ErrorCode::ResizeFailure)
    } else {
        match target_capacity(cfg, ns as u64, pre.capacity) {
            None => Some(ErrorCode::ResizeFailure),
            Some(c) => if needs_growth(cfg, ns, pre.capacity as int) && payer_pre < top_up_for(
                pre.lamports as int,
                rent_exempt_minimum(c),
            ) {
                Some(ErrorCode::FundingFailure)
            } else {
                None
            },
        }
    }
}

/// Funding adequacy is an invariant of the append operation: a balance
/// that met the rent-exempt minimum of the old capacity meets the
/// minimum of the new capacity after any successful append.
pub proof fn lemma_funding_adequacy(
    pre: Ledger,
    cfg: GrowthConfig,
    period: u64,
    value_bytes: Seq<u8>,
    voter: Identity,
    post: Ledger,
    payer_pre: u64,
    payer_post: u64,
)
    requires
        ledger_wf(pre),
        config_wf(cfg),
        append_vote_ok(pre, cfg, period, value_bytes, voter, post, payer_pre, payer_post),
        pre.lamports >= rent_exempt_minimum(pre.capacity as int),
    ensures
        post.lamports >= rent_exempt_minimum(post.capacity as int),
{
    let d = digest_of(value_bytes);
    let ns = records_size(records_after_vote(pre.records@, period, d, voter));
    if !needs_growth(cfg, ns, pre.capacity as int) {
        assert(target_capacity(cfg, ns as u64, pre.capacity) == Some(pre.capacity as int));
        assert(post.capacity == pre.capacity);
    }
}

/// Appends one vote into the ledger: the submitted value is normalized to
/// its 8-byte digest, recorded under `(period, digest, voter)` with full
/// deduplication, the serialized size is recomputed exactly, and the
/// growth-and-funding policy runs against the new size, drawing any
/// required top-up from the payer's balance. On any failure the ledger and
/// the payer balance are left untouched.
pub fn append_vote(
    l: &mut Ledger,
    cfg: &GrowthConfig,
    period: u64,
    value_bytes: &Vec<u8>,
    voter: Identity,
    payer_lamports: &mut u64,
) -> (r: Result<(), ErrorCode>)
    requires
        ledger_wf(*old(l)),
        config_wf(*cfg),
    ensures
        match r {
            Ok(()) => {
                &&& append_vote_err(*old(l), *cfg, period, value_bytes@, voter, *old(payer_lamports))
                    is None
                &&& append_vote_ok(
                    *old(l),
                    *cfg,
                    period,
                    value_bytes@,
                    voter,
                    *final(l),
                    *old(payer_lamports),
                    *final(payer_lamports),
                )
                &&& ledger_wf(*final(l))
                &&& final(l).capacity >= old(l).capacity
            },
            Err(e) => {
                &&& Some(e) == append_vote_err(
                    *old(l),
                    *cfg,
                    period,
                    value_bytes@,
                    voter,
                    *old(payer_lamports),
                )
                &&& *final(l) == *old(l)
                &&& *final(payer_lamports) == *old(payer_lamports)
            },
        },
{
    let ghost pre = *old(l);
    let d = normalize_digest(value_bytes);
    proof {
        lemma_find_block_char(pre.records@, period);
    }
    let delta: u64 = match find_block_index(&l.records.block_ids, period) {
        Some(i) => {
            proof {
                lemma_find_value_char(pre.records@[i as int].hashes, d);
                assert(pre.records@[i as int] == l.records.block_ids@[i as int]@);
            }
            match find_value_index(&l.records.block_ids[i].final_hashes, d) {
                Some(j) => {
                    if contains_identity(&l.records.block_ids[i].final_hashes[j].pubkeys, voter) {
                        0
                    } else {
                        IDENTITY_SIZE
                    }
                },
                None => VALUE_SIZE + COUNT_SIZE + LEN_PREFIX_SIZE + IDENTITY_SIZE,
            }
        },
        None => BLOCK_ID_SIZE + LEN_PREFIX_SIZE + VALUE_SIZE + COUNT_SIZE + LEN_PREFIX_SIZE
            + IDENTITY_SIZE,
    };
    proof {
        assert(delta == append_delta(pre.records@, period, d, voter));
        lemma_records_size_after_vote(pre.records@, period, d, voter);
    }
    let ns: u64 = l.data_size + delta;
    if ns > MAX_ACCOUNT_DATA {
        return Err(ErrorCode::ResizeFailure);
    }
    let newcap = match ensure_capacity(cfg, ns, l.capacity) {
        Ok(c) => c,
        Err(e) => {
            return Err(e);
        },
    };
    proof {
        if needs_growth(*cfg, ns as int, pre.capacity as int) {
            assert(grown_capacity(*cfg, ns, pre.capacity) == grown_capacity(
                *cfg,
                ns,
                grow_step(*cfg, pre.capacity) as u64,
            ));
            crate::growth::lemma_grown_monotone(*cfg, ns, grow_step(*cfg, pre.capacity) as u64);
            assert(newcap > pre.capacity);
        } else {
            assert(newcap == pre.capacity);
        }
    }
    let top_up: u64 = if newcap > l.capacity {
        let m = rent_minimum_balance(newcap);
        if m > l.lamports {
            m - l.lamports
        } else {
            0
        }
    } else {
        0
    };
    if top_up > *payer_lamports {
        return Err(ErrorCode::FundingFailure);
    }
    append_record(&mut l.records, period, d, voter);
    l.data_size = ns;
    l.capacity = newcap;
    l.lamports = l.lamports + top_up;
    *payer_lamports = *payer_lamports - top_up;
    proof {
        crate::growth::lemma_mul_occupancy(*cfg, ns as int, newcap as int);
    }
    Ok(())
}

} // verus!
