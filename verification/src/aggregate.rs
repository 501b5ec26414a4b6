use crate::errors::ErrorCode;
use crate::ids::{id_byte_seq, identity_to_bytes};
use crate::tally::UserAccountPda;
use vstd::bytes::{spec_u32_to_le_bytes, spec_u64_to_le_bytes, u32_to_le_bytes, u64_to_le_bytes};
use vstd::prelude::*;

verus! {

/// The voter-credit aggregate: one entry per participant ever credited,
/// in insertion order, never reordered or deleted. It exists purely for
/// paginated read-back.
#[derive(Clone, Debug)]
pub struct VoterAccounting {
    /// The per-participant entries.
    pub pubkey_counts: Vec<UserAccountPda>,
}

/// Serialized form of one aggregate entry: the 32 raw identity bytes,
/// then credit, debit and last-credited period, 8 little-endian bytes
/// each.
pub open spec fn entry_encoding(a: UserAccountPda) -> Seq<u8> {
    id_byte_seq(a.user) + spec_u64_to_le_bytes(a.credit) + spec_u64_to_le_bytes(a.debit)
        + spec_u64_to_le_bytes(a.inblock)
}

/// Serialized form of a list of entries, in order.
pub open spec fn entries_encoding(s: Seq<UserAccountPda>) -> Seq<u8>
    decreases s.len(),
{
    if s.len() == 0 {
        Seq::empty()
    } else {
        entries_encoding(s.drop_last()) + entry_encoding(s.last())
    }
}

/// Serialized form of a response chunk: a 4-byte little-endian entry
/// count, then the entries in order.
pub open spec fn chunk_encoding(s: Seq<UserAccountPda>) -> Seq<u8> {
    spec_u32_to_le_bytes(s.len() as u32) + entries_encoding(s)
}

/// The page `[offset, offset+limit)` of the aggregate, clipped to its
/// length: reading at or past the end yields the empty page.
pub open spec fn chunk_view(s: Seq<UserAccountPda>, offset: int, limit: int) -> Seq<
    UserAccountPda,
> {
    let end = if offset + limit < s.len() {
        offset + limit
    } else {
        s.len() as int
    };
    let start = if offset < end {
        offset
    } else {
        end
    };
    s.subrange(start, end)
}

/// Each entry encodes to exactly 56 bytes, so a chunk of `n` entries
/// encodes to `4 + 56 * n` bytes.
pub proof fn lemma_entries_encoding_len(s: Seq<UserAccountPda>)
    ensures
        entries_encoding(s).len() == 56 * s.len(),
    decreases s.len(),
{
    if s.len() > 0 {
        lemma_entries_encoding_len(s.drop_last());
        vstd::bytes::lemma_auto_spec_u64_to_from_le_bytes();
    }
}

/// Copies one page of the aggregate: the entries from `offset` up to
/// `offset + limit`, clipped to the aggregate's length.
pub fn chunk_entries(va: &VoterAccounting, offset: u64, limit: u64) -> (r: Vec<UserAccountPda>)
    ensures
        r@ == chunk_view(va.pubkey_counts@, offset as int, limit as int),
{
    let n = va.pubkey_counts.len();
    let end: usize = if (offset as u128) + (limit as u128) < (n as u128) {
        (offset + limit) as usize
    } else {
        n
    };
    let start: usize = if offset < (end as u64) {
        offset as usize
    } else {
        end
    };
    let ghost sv = va.pubkey_counts@;
    let mut r: Vec<UserAccountPda> = Vec::new();
    let mut i: usize = start;
    while i < end
        invariant
            start <= i <= end <= sv.len(),
            sv == va.pubkey_counts@,
            r@ == sv.subrange(start as int, i as int),
        decreases end - i,
    {
        r.push(va.pubkey_counts[i]);
        proof {
            assert(r@ =~= sv.subrange(start as int, i as int + 1));
        }
        i += 1;
    }
    proof {
        assert(r@ =~= chunk_view(sv, offset as int, limit as int));
    }
    r
}

/// Encodes a page of entries into its serialized byte form.
pub fn encode_chunk(entries: &Vec<UserAccountPda>) -> (r: Vec<u8>)
    requires
        entries@.len() <= u32::MAX,
    ensures
        r@ == chunk_encoding(entries@),
{
    let ghost ev = entries@;
    let mut out = u32_to_le_bytes(entries.len() as u32);
    let ghost prefix = out@;
    let mut i: usize = 0;
    while i < entries.len()
        invariant
            i <= ev.len(),
            ev == entries@,
            prefix == spec_u32_to_le_bytes(ev.len() as u32),
            out@ == prefix + entries_encoding(ev.take(i as int)),
        decreases ev.len() - i,
    {
        let e = &entries[i];
        let mut user = identity_to_bytes(&e.user);
        let mut credit = u64_to_le_bytes(e.credit);
        let mut debit = u64_to_le_bytes(e.debit);
        let mut inblock = u64_to_le_bytes(e.inblock);
        out.append(&mut user);
        out.append(&mut credit);
        out.append(&mut debit);
        out.append(&mut inblock);
        proof {
            assert(ev.take(i as int + 1).drop_last() =~= ev.take(i as int));
            assert(ev.take(i as int + 1).last() == ev[i as int]);
            assert(out@ =~= prefix + entries_encoding(ev.take(i as int + 1)));
        }
        i += 1;
    }
    proof {
        assert(ev.take(ev.len() as int) =~= ev);
        assert(out@ =~= chunk_encoding(ev));
    }
    out
}

/// Serves one page of the voter-credit aggregate in serialized form, for
/// delivery over a bounded response channel of `max_bytes` capacity.
/// Fails with `SerializationError` exactly when the encoded page would
/// not fit that channel.
pub fn get_voter_accounting_chunk(
    va: &VoterAccounting,
    offset: u64,
    limit: u64,
    max_bytes: u64,
) -> (r: Result<Vec<u8>, ErrorCode>)
    requires
        va.pubkey_counts@.len() <= u32::MAX,
    ensures
        match r {
            Ok(bytes) => {
                &&& bytes@ == chunk_encoding(
                    chunk_view(va.pubkey_counts@, offset as int, limit as int),
                )
                &&& bytes@.len() <= max_bytes
            },
            Err(e) => {
                &&& e == ErrorCode::SerializationError
                &&& chunk_encoding(
                    chunk_view(va.pubkey_counts@, offset as int, limit as int),
                ).len() > max_bytes
            },
        },
{
    let entries = chunk_entries(va, offset, limit);
    let bytes = encode_chunk(&entries);
    proof {
        lemma_entries_encoding_len(entries@);
    }
    if bytes.len() as u64 > max_bytes {
        return Err(ErrorCode::SerializationError);
    }
    Ok(bytes)
}

} // verus!
