use grow_space::growth::{GrowthConfig, GrowthRule};
use grow_space::ids::Identity;
use grow_space::ledger::{append_vote, initialize_pda, Ledger};
use grow_space::ops::{append_data, ledger_address};
use grow_space::tally::{SuppliedAccount, UserAccountPda};
use solana_program::pubkey::Pubkey;

fn ident(n: u64) -> Identity {
    Identity { w0: n, w1: n + 1, w2: n + 2, w3: n + 3 }
}

fn identity_bytes(id: &Identity) -> [u8; 32] {
    let mut b = [0u8; 32];
    b[0..8].copy_from_slice(&id.w0.to_le_bytes());
    b[8..16].copy_from_slice(&id.w1.to_le_bytes());
    b[16..24].copy_from_slice(&id.w2.to_le_bytes());
    b[24..32].copy_from_slice(&id.w3.to_le_bytes());
    b
}

fn identity_from_bytes(b: &[u8; 32]) -> Identity {
    Identity {
        w0: u64::from_le_bytes(b[0..8].try_into().unwrap()),
        w1: u64::from_le_bytes(b[8..16].try_into().unwrap()),
        w2: u64::from_le_bytes(b[16..24].try_into().unwrap()),
        w3: u64::from_le_bytes(b[24..32].try_into().unwrap()),
    }
}

fn expected_voter_address(voter: &Identity, program: &Identity) -> Identity {
    let program_id = Pubkey::new_from_array(identity_bytes(program));
    let (key, _bump) = Pubkey::find_program_address(
        &[b"user_account_pda", &identity_bytes(voter)],
        &program_id,
    );
    identity_from_bytes(&key.to_bytes())
}

fn test_config() -> GrowthConfig {
    GrowthConfig { threshold_percent: 80, rule: GrowthRule::Proportional(33) }
}

fn append(l: &mut Ledger, period: u64, value: &[u8], voter: Identity) {
    let cfg = test_config();
    let mut payer: u64 = 1_000_000_000_000;
    append_vote(l, &cfg, period, &value.to_vec(), voter, &mut payer).expect("append failed");
}

#[test]
fn ledger_address_matches_the_host_derivation() {
    let program = ident(777);
    let program_id = Pubkey::new_from_array(identity_bytes(&program));
    let (expected, _bump) =
        Pubkey::find_program_address(&[b"pda_account", &1000u64.to_le_bytes()], &program_id);
    let got = ledger_address(1000, &program).expect("no derivation found");
    assert_eq!(got, expected.to_bytes().to_vec());
}

#[test]
fn scenario_majority_vote_and_credit() {
    // Five appends under period 1000: two for ABCDEFGH, three for
    // ZZZZZZZZ; ZZZZZZZZ wins with 3 of 5 and its voters are credited.
    let v: Vec<Identity> = (1..=5).map(|n| ident(n * 10)).collect();
    let mut prev = initialize_pda();
    append(&mut prev, 1000, b"ABCDEFGH", v[0]);
    append(&mut prev, 1000, b"ABCDEFGH", v[1]);
    append(&mut prev, 1000, b"ZZZZZZZZ", v[2]);
    append(&mut prev, 1000, b"ZZZZZZZZ", v[3]);
    append(&mut prev, 1000, b"ZZZZZZZZ", v[4]);

    let block = &prev.records.block_ids[0];
    assert_eq!(block.block_id, 1000);
    assert_eq!(block.final_hashes.len(), 2);
    assert_eq!(block.final_hashes[0].final_hash, u64::from_le_bytes(*b"ABCDEFGH"));
    assert_eq!(block.final_hashes[0].count, 2);
    assert_eq!(block.final_hashes[1].final_hash, u64::from_le_bytes(*b"ZZZZZZZZ"));
    assert_eq!(block.final_hashes[1].count, 3);

    let program = ident(777);
    let payer = ident(9000);
    let mut accounts: Vec<SuppliedAccount> = v
        .iter()
        .map(|voter| SuppliedAccount {
            address: expected_voter_address(voter, &program),
            account: UserAccountPda { user: *voter, credit: 0, debit: 0, inblock: 0 },
        })
        .collect();
    let mut ledger = initialize_pda();
    let mut user_account = UserAccountPda { user: Identity::zero(), credit: 0, debit: 0, inblock: 0 };
    let mut payer_lamports: u64 = 1_000_000_000_000;
    append_data(
        &mut ledger,
        Some(&prev.records),
        &test_config(),
        1001,
        &b"QQQQQQQQ".to_vec(),
        &mut accounts,
        &mut user_account,
        payer,
        &mut payer_lamports,
        &program,
    )
    .expect("append_data failed");

    // The losing voters are untouched; the majority voters each gain one
    // credit, stamped with the new period.
    assert_eq!(accounts[0].account.credit, 0);
    assert_eq!(accounts[1].account.credit, 0);
    for a in &accounts[2..5] {
        assert_eq!(a.account.credit, 1);
        assert_eq!(a.account.inblock, 1001);
    }
    // The new vote was appended into the current ledger.
    assert_eq!(ledger.records.block_ids.len(), 1);
    assert_eq!(ledger.records.block_ids[0].block_id, 1001);
    // The unowned submitter account took the payer as owner.
    assert_eq!(user_account.user, payer);
}

#[test]
fn absent_snapshot_skips_the_tally() {
    let program = ident(777);
    let payer = ident(9000);
    let voter = ident(10);
    let mut accounts = vec![SuppliedAccount {
        address: expected_voter_address(&voter, &program),
        account: UserAccountPda { user: voter, credit: 0, debit: 0, inblock: 0 },
    }];
    let mut ledger = initialize_pda();
    let mut user_account = UserAccountPda { user: payer, credit: 3, debit: 0, inblock: 5 };
    let mut payer_lamports: u64 = 1_000_000_000_000;
    append_data(
        &mut ledger,
        None,
        &test_config(),
        1001,
        &b"ABCDEFGH".to_vec(),
        &mut accounts,
        &mut user_account,
        payer,
        &mut payer_lamports,
        &program,
    )
    .expect("append_data failed");
    assert_eq!(accounts[0].account.credit, 0);
    // An already-owned submitter account keeps its owner.
    assert_eq!(user_account.user, payer);
    assert_eq!(user_account.credit, 3);
}

#[test]
fn failed_append_leaves_all_accounts_untouched() {
    let program = ident(777);
    let payer = ident(9000);
    let voter = ident(10);
    let prev = {
        let mut p = initialize_pda();
        append(&mut p, 1000, b"ZZZZZZZZ", voter);
        p
    };
    let mut accounts = vec![SuppliedAccount {
        address: expected_voter_address(&voter, &program),
        account: UserAccountPda { user: voter, credit: 0, debit: 0, inblock: 0 },
    }];
    let mut ledger = initialize_pda();
    let mut user_account = UserAccountPda { user: Identity::zero(), credit: 0, debit: 0, inblock: 0 };
    let mut payer_lamports: u64 = 0;
    let r = append_data(
        &mut ledger,
        Some(&prev.records),
        &test_config(),
        1001,
        &b"ABCDEFGH".to_vec(),
        &mut accounts,
        &mut user_account,
        payer,
        &mut payer_lamports,
        &program,
    );
    assert_eq!(r, Err(grow_space::errors::ErrorCode::FundingFailure));
    // Atomicity: the funding failure aborted the whole call before any
    // mutation became observable.
    assert_eq!(accounts[0].account.credit, 0);
    assert_eq!(user_account.user, Identity::zero());
    assert_eq!(ledger.records.block_ids.len(), 0);
}
