use grow_space::growth::{GrowthConfig, GrowthRule};
use grow_space::ids::{normalize_digest, Identity};
use grow_space::ledger::{append_vote, initialize_pda, Ledger};

fn ident(n: u64) -> Identity {
    Identity { w0: n, w1: n + 1, w2: n + 2, w3: n + 3 }
}

fn test_config() -> GrowthConfig {
    GrowthConfig { threshold_percent: 80, rule: GrowthRule::Proportional(33) }
}

fn append(l: &mut Ledger, period: u64, value: &[u8], voter: Identity) {
    let cfg = test_config();
    let mut payer: u64 = 1_000_000_000_000;
    append_vote(l, &cfg, period, &value.to_vec(), voter, &mut payer).expect("append failed");
}

#[test]
fn digest_packs_little_endian() {
    assert_eq!(
        normalize_digest(&b"ABCDEFGH".to_vec()),
        u64::from_le_bytes(*b"ABCDEFGH")
    );
}

#[test]
fn digest_zero_pads_short_values() {
    assert_eq!(
        normalize_digest(&b"AB".to_vec()),
        u64::from_le_bytes(*b"AB\0\0\0\0\0\0")
    );
    assert_eq!(normalize_digest(&Vec::new()), 0);
}

#[test]
fn digest_truncates_long_values() {
    assert_eq!(
        normalize_digest(&b"ABCDEFGHIJKL".to_vec()),
        u64::from_le_bytes(*b"ABCDEFGH")
    );
}

#[test]
fn empty_ledger_shape() {
    let l = initialize_pda();
    assert_eq!(l.records.block_ids.len(), 0);
    assert_eq!(l.data_size, 12);
    assert_eq!(l.capacity, 12);
    // Rent-exempt minimum for 12 bytes under the default schedule.
    assert_eq!(l.lamports, (128 + 12) * 6960);
}

#[test]
fn append_creates_block_and_candidate() {
    let mut l = initialize_pda();
    append(&mut l, 1000, b"ABCDEFGH", ident(1));
    assert_eq!(l.records.block_ids.len(), 1);
    assert_eq!(l.records.block_ids[0].block_id, 1000);
    assert_eq!(l.records.block_ids[0].final_hashes.len(), 1);
    let e = &l.records.block_ids[0].final_hashes[0];
    assert_eq!(e.final_hash, u64::from_le_bytes(*b"ABCDEFGH"));
    assert_eq!(e.pubkeys, vec![ident(1)]);
    assert_eq!(e.count, 1);
    // 8 tag + 4 list prefix + 8 block id + 4 prefix + 8 value + 8 count
    // + 4 prefix + 32 identity
    assert_eq!(l.data_size, 76);
}

#[test]
fn duplicate_append_is_idempotent() {
    let mut a = initialize_pda();
    append(&mut a, 1000, b"ABCDEFGH", ident(1));
    let once = a.clone();
    append(&mut a, 1000, b"ABCDEFGH", ident(1));
    let e = &a.records.block_ids[0].final_hashes[0];
    assert_eq!(e.pubkeys, once.records.block_ids[0].final_hashes[0].pubkeys);
    assert_eq!(e.count, 1);
    assert_eq!(a.data_size, once.data_size);
}

#[test]
fn new_value_leaves_other_candidates_alone() {
    let mut l = initialize_pda();
    append(&mut l, 1000, b"ABCDEFGH", ident(1));
    append(&mut l, 1000, b"ABCDEFGH", ident(2));
    let before = l.records.block_ids[0].final_hashes[0].clone();
    append(&mut l, 1000, b"ZZZZZZZZ", ident(3));
    let block = &l.records.block_ids[0];
    assert_eq!(block.final_hashes.len(), 2);
    assert_eq!(block.final_hashes[0].pubkeys, before.pubkeys);
    assert_eq!(block.final_hashes[0].count, before.count);
    assert_eq!(block.final_hashes[1].final_hash, u64::from_le_bytes(*b"ZZZZZZZZ"));
    assert_eq!(block.final_hashes[1].count, 1);
}

#[test]
fn new_period_appends_block_at_end() {
    let mut l = initialize_pda();
    append(&mut l, 1000, b"ABCDEFGH", ident(1));
    append(&mut l, 2000, b"ABCDEFGH", ident(1));
    assert_eq!(l.records.block_ids.len(), 2);
    assert_eq!(l.records.block_ids[0].block_id, 1000);
    assert_eq!(l.records.block_ids[1].block_id, 2000);
}

#[test]
fn capacity_never_shrinks_and_occupancy_stays_below_threshold() {
    let cfg = test_config();
    let mut l = initialize_pda();
    let mut payer: u64 = 1_000_000_000_000;
    let mut last_capacity = l.capacity;
    for i in 0..50u64 {
        append_vote(&mut l, &cfg, 1000, &b"ABCDEFGH".to_vec(), ident(10 + i), &mut payer)
            .expect("append failed");
        assert!(l.capacity >= last_capacity);
        if l.capacity > last_capacity {
            // A growth step ran: occupancy must lie strictly below the
            // threshold afterwards.
            assert!((l.data_size as u128) * 100 < 80 * (l.capacity as u128));
        }
        assert!(l.data_size <= l.capacity);
        last_capacity = l.capacity;
    }
}

#[test]
fn growth_tops_up_to_rent_minimum_from_payer() {
    let cfg = test_config();
    let mut l = initialize_pda();
    let mut payer: u64 = 1_000_000_000_000;
    let payer_before = payer;
    let lamports_before = l.lamports;
    append_vote(&mut l, &cfg, 1000, &b"ABCDEFGH".to_vec(), ident(1), &mut payer)
        .expect("append failed");
    assert!(l.capacity > 12, "first append must grow the account");
    let expected_min = solana_program::rent::Rent::default().minimum_balance(l.capacity as usize);
    assert_eq!(l.lamports, expected_min);
    assert_eq!(payer_before - payer, l.lamports - lamports_before);
}

#[test]
fn fixed_rule_grows_by_its_step() {
    let cfg = GrowthConfig { threshold_percent: 80, rule: GrowthRule::Fixed(4000) };
    let mut l = initialize_pda();
    let mut payer: u64 = 1_000_000_000_000;
    append_vote(&mut l, &cfg, 1000, &b"ABCDEFGH".to_vec(), ident(1), &mut payer)
        .expect("append failed");
    // One fixed step from the initial 12 bytes already puts the 76-byte
    // occupancy far below the threshold.
    assert_eq!(l.capacity, 4012);
}

#[test]
fn proportional_rule_steps_until_below_threshold() {
    let cfg = test_config();
    let mut l = initialize_pda();
    let mut payer: u64 = 1_000_000_000_000;
    append_vote(&mut l, &cfg, 1000, &b"ABCDEFGH".to_vec(), ident(1), &mut payer)
        .expect("append failed");
    // Growing by a third (and at least one byte) from 12 bytes steps
    // through 15, 19, 25, 33, 43, 57, 75 and stops at 99, the first
    // capacity whose 80% exceeds the 76-byte payload.
    assert_eq!(l.capacity, 99);
}

#[test]
fn funding_failure_leaves_everything_untouched() {
    let cfg = test_config();
    let mut l = initialize_pda();
    let before = l.clone();
    let mut payer: u64 = 0;
    let r = append_vote(&mut l, &cfg, 1000, &b"ABCDEFGH".to_vec(), ident(1), &mut payer);
    assert_eq!(r, Err(grow_space::errors::ErrorCode::FundingFailure));
    assert_eq!(payer, 0);
    assert_eq!(l.records.block_ids.len(), before.records.block_ids.len());
    assert_eq!(l.data_size, before.data_size);
    assert_eq!(l.capacity, before.capacity);
    assert_eq!(l.lamports, before.lamports);
}

#[test]
fn resize_failure_when_no_permitted_capacity_fits() {
    // One fixed step from the initial 12 bytes overshoots the 10 MiB cap,
    // so the policy can never settle.
    let cfg = GrowthConfig { threshold_percent: 80, rule: GrowthRule::Fixed(10_485_760) };
    let mut l = initialize_pda();
    let mut payer: u64 = 1_000_000_000_000;
    let r = append_vote(&mut l, &cfg, 1000, &b"ABCDEFGH".to_vec(), ident(1), &mut payer);
    assert_eq!(r, Err(grow_space::errors::ErrorCode::ResizeFailure));
    assert_eq!(l.records.block_ids.len(), 0);
    assert_eq!(l.capacity, 12);
}
