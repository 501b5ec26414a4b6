use grow_space::aggregate::{chunk_entries, get_voter_accounting_chunk, VoterAccounting};
use grow_space::errors::ErrorCode;
use grow_space::ids::Identity;
use grow_space::tally::UserAccountPda;

fn ident(n: u64) -> Identity {
    Identity { w0: n, w1: n + 1, w2: n + 2, w3: n + 3 }
}

fn entry(n: u64) -> UserAccountPda {
    UserAccountPda { user: ident(n), credit: n, debit: 2 * n, inblock: 1000 + n }
}

fn aggregate_of(n: u64) -> VoterAccounting {
    VoterAccounting { pubkey_counts: (0..n).map(entry).collect() }
}

#[test]
fn middle_page_is_clipped_to_the_end() {
    let va = aggregate_of(5);
    let page = chunk_entries(&va, 3, 10);
    assert_eq!(page.len(), 2);
    assert_eq!(page[0], entry(3));
    assert_eq!(page[1], entry(4));
}

#[test]
fn page_past_the_end_is_empty() {
    let va = aggregate_of(5);
    let page = chunk_entries(&va, 10, 5);
    assert_eq!(page.len(), 0);
}

#[test]
fn page_at_exact_end_is_empty() {
    let va = aggregate_of(5);
    let page = chunk_entries(&va, 5, 1);
    assert_eq!(page.len(), 0);
}

#[test]
fn full_page_returns_everything() {
    let va = aggregate_of(3);
    let page = chunk_entries(&va, 0, 3);
    assert_eq!(page, va.pubkey_counts);
}

#[test]
fn encoding_is_count_prefixed_little_endian() {
    let va = VoterAccounting {
        pubkey_counts: vec![UserAccountPda {
            user: Identity { w0: 1, w1: 2, w2: 3, w3: 4 },
            credit: 7,
            debit: 9,
            inblock: 1000,
        }],
    };
    let bytes = get_voter_accounting_chunk(&va, 0, 1, 1024).unwrap();
    let mut expected: Vec<u8> = Vec::new();
    expected.extend_from_slice(&1u32.to_le_bytes());
    expected.extend_from_slice(&1u64.to_le_bytes());
    expected.extend_from_slice(&2u64.to_le_bytes());
    expected.extend_from_slice(&3u64.to_le_bytes());
    expected.extend_from_slice(&4u64.to_le_bytes());
    expected.extend_from_slice(&7u64.to_le_bytes());
    expected.extend_from_slice(&9u64.to_le_bytes());
    expected.extend_from_slice(&1000u64.to_le_bytes());
    assert_eq!(bytes, expected);
}

#[test]
fn chunk_that_fits_exactly_is_served() {
    let va = aggregate_of(2);
    // Two entries: 4-byte count + 2 * 56 bytes.
    let bytes = get_voter_accounting_chunk(&va, 0, 2, 116).unwrap();
    assert_eq!(bytes.len(), 116);
}

#[test]
fn oversized_chunk_is_a_serialization_error() {
    let va = aggregate_of(2);
    let r = get_voter_accounting_chunk(&va, 0, 2, 115);
    assert_eq!(r, Err(ErrorCode::SerializationError));
}

#[test]
fn empty_page_still_encodes_its_count() {
    let va = aggregate_of(5);
    let bytes = get_voter_accounting_chunk(&va, 10, 5, 1024).unwrap();
    assert_eq!(bytes, 0u32.to_le_bytes().to_vec());
}
