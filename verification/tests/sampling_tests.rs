use grow_space::aggregate::VoterAccounting;
use grow_space::errors::ErrorCode;
use grow_space::ids::Identity;
use grow_space::ledger::{BlockEntry, FinalHashEntry, PDAAccount};
use grow_space::sampling::{aggregate_pubkey_counts, select_k};
use grow_space::tally::UserAccountPda;

fn ident(n: u64) -> Identity {
    Identity { w0: n, w1: n + 1, w2: n + 2, w3: n + 3 }
}

fn snapshot_of(value: &[u8; 8], voters: Vec<Identity>) -> PDAAccount {
    let count = voters.len() as u64;
    PDAAccount {
        block_ids: vec![BlockEntry {
            block_id: 1000,
            final_hashes: vec![FinalHashEntry {
                final_hash: u64::from_le_bytes(*value),
                pubkeys: voters,
                count,
            }],
        }],
    }
}

fn empty_accounting() -> VoterAccounting {
    VoterAccounting { pubkey_counts: Vec::new() }
}

#[test]
fn selection_walks_cyclically_from_the_seed() {
    let pool: Vec<Identity> = (0..4).map(ident).collect();
    let mut dest: Vec<Identity> = Vec::new();
    // start = 6 mod 4 = 2, so the walk visits slots 2, 3, 0.
    select_k(&pool, 3, 6, &mut dest);
    assert_eq!(dest, vec![ident(2), ident(3), ident(0)]);
}

#[test]
fn selection_skips_identities_already_present() {
    let pool: Vec<Identity> = (0..4).map(ident).collect();
    let mut dest: Vec<Identity> = vec![ident(3)];
    // start = 2: slot 2 is added, slot 3 is already present and skipped,
    // then slots 0 and 1 complete the three additions.
    select_k(&pool, 3, 2, &mut dest);
    assert_eq!(dest, vec![ident(3), ident(2), ident(0), ident(1)]);
}

#[test]
fn selection_stops_when_the_pool_is_exhausted() {
    let pool: Vec<Identity> = (0..2).map(ident).collect();
    let mut dest: Vec<Identity> = Vec::new();
    select_k(&pool, 5, 0, &mut dest);
    assert_eq!(dest, vec![ident(0), ident(1)]);
}

#[test]
fn sampling_selects_three_eligible_voters() {
    let voters: Vec<Identity> = (0..5).map(ident).collect();
    let snapshot = snapshot_of(b"ABCDEFGH", voters);
    let r = aggregate_pubkey_counts(&snapshot, 1000, &empty_accounting(), 7).unwrap();
    // start = 7 mod 5 = 2: slots 2, 3, 4.
    assert_eq!(r, vec![ident(2), ident(3), ident(4)]);
}

#[test]
fn already_credited_voters_leave_the_pool() {
    let voters: Vec<Identity> = (0..4).map(ident).collect();
    let snapshot = snapshot_of(b"ABCDEFGH", voters);
    // Voter 1 was already credited at this period and is excluded.
    let accounting = VoterAccounting {
        pubkey_counts: vec![UserAccountPda { user: ident(1), credit: 1, debit: 0, inblock: 1000 }],
    };
    let r = aggregate_pubkey_counts(&snapshot, 1000, &accounting, 0).unwrap();
    // Pool is [0, 2, 3]; start = 0 mod 3 = 0.
    assert_eq!(r, vec![ident(0), ident(2), ident(3)]);
}

#[test]
fn voter_credited_before_the_period_stays_in_the_pool() {
    let voters: Vec<Identity> = (0..3).map(ident).collect();
    let snapshot = snapshot_of(b"ABCDEFGH", voters);
    let accounting = VoterAccounting {
        pubkey_counts: vec![UserAccountPda { user: ident(1), credit: 1, debit: 0, inblock: 999 }],
    };
    let r = aggregate_pubkey_counts(&snapshot, 1000, &accounting, 0).unwrap();
    assert_eq!(r, vec![ident(0), ident(1), ident(2)]);
}

#[test]
fn empty_snapshot_has_nothing_to_sample() {
    let snapshot = PDAAccount { block_ids: Vec::new() };
    let r = aggregate_pubkey_counts(&snapshot, 1000, &empty_accounting(), 0);
    assert_eq!(r, Err(ErrorCode::NotFound));
}

#[test]
fn block_without_candidates_is_not_found() {
    let snapshot = PDAAccount {
        block_ids: vec![BlockEntry { block_id: 1000, final_hashes: Vec::new() }],
    };
    let r = aggregate_pubkey_counts(&snapshot, 1000, &empty_accounting(), 0);
    assert_eq!(r, Err(ErrorCode::NotFound));
}

#[test]
fn non_text_digest_is_a_decode_error() {
    let voters: Vec<Identity> = (0..5).map(ident).collect();
    let snapshot = snapshot_of(&[0xFF, 0xFE, 0xFD, 0xFC, 0xFB, 0xFA, 0xF9, 0xF8], voters);
    let r = aggregate_pubkey_counts(&snapshot, 1000, &empty_accounting(), 0);
    assert_eq!(r, Err(ErrorCode::DecodeError));
}

#[test]
fn too_small_a_pool_is_insufficient() {
    let voters: Vec<Identity> = (0..2).map(ident).collect();
    let snapshot = snapshot_of(b"ABCDEFGH", voters);
    let r = aggregate_pubkey_counts(&snapshot, 1000, &empty_accounting(), 0);
    assert_eq!(r, Err(ErrorCode::InsufficientCandidates));
}
