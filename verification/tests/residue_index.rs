use airdrop::{
    check_residue_set, initialize, set_residue, State, MAX_CLAIMS, MODULUS_0, MODULUS_1,
    MODULUS_2, STATE_SPACE,
};

fn fresh(total_claims: u64) -> State {
    let (state, _) = initialize([1u8; 32], [2u8; 32], 0, 1_000, [3u8; 32], total_claims)
        .expect("valid parameters");
    state
}

#[test]
fn constants_have_their_documented_values() {
    assert_eq!(MAX_CLAIMS, 1_000_000);
    assert_eq!((MODULUS_0, MODULUS_1, MODULUS_2), (971, 311, 601));
    assert_eq!(STATE_SPACE, 366);
}

#[test]
fn lanes_are_sized_to_their_moduli() {
    let state = fresh(10);
    assert_eq!(state.claim_residues0.len(), 122);
    assert_eq!(state.claim_residues1.len(), 39);
    assert_eq!(state.claim_residues2.len(), 76);
    assert!(state.claim_residues0.len() * 8 >= MODULUS_0 as usize);
    assert!(state.claim_residues1.len() * 8 >= MODULUS_1 as usize);
    assert!(state.claim_residues2.len() * 8 >= MODULUS_2 as usize);
}

#[test]
fn test_reads_the_bit_of_a_residue() {
    let lane = [0b0000_0100u8, 0b1000_0000u8];
    assert!(check_residue_set(&lane, 2));
    assert!(check_residue_set(&lane, 15));
    for r in 0..16 {
        assert_eq!(check_residue_set(&lane, r), r == 2 || r == 15);
    }
}

#[test]
fn test_out_of_range_reports_unset() {
    let lane = [0xffu8; 4];
    assert!(check_residue_set(&lane, 31));
    assert!(!check_residue_set(&lane, 32));
    assert!(!check_residue_set(&lane, 1_000_000));
    assert!(!check_residue_set(&lane, usize::MAX));
    assert!(!check_residue_set(&[], 0));
}

#[test]
fn mark_sets_exactly_one_bit() {
    let mut lane = [0u8; 122];
    set_residue(&mut lane, 29);
    let mut expected = [0u8; 122];
    expected[3] = 0x20;
    assert_eq!(lane, expected);
    set_residue(&mut lane, 970);
    expected[121] = 0x04;
    assert_eq!(lane, expected);
    set_residue(&mut lane, 0);
    expected[0] = 0x01;
    assert_eq!(lane, expected);
}

#[test]
fn mark_is_idempotent() {
    let mut lane = [0u8; 39];
    set_residue(&mut lane, 67);
    let once = lane;
    set_residue(&mut lane, 67);
    assert_eq!(lane, once);
    assert_eq!(lane[8], 0x08);
}

#[test]
fn mark_out_of_range_changes_nothing() {
    let mut lane = [0x5au8; 4];
    set_residue(&mut lane, 32);
    set_residue(&mut lane, usize::MAX);
    assert_eq!(lane, [0x5au8; 4]);
}

#[test]
fn mark_keeps_the_other_bits_of_the_byte() {
    let mut lane = [0b1010_0001u8];
    set_residue(&mut lane, 3);
    assert_eq!(lane, [0b1010_1001u8]);
}

#[test]
fn fresh_ledger_has_no_member() {
    let state = fresh(MAX_CLAIMS);
    for index in (0..MAX_CLAIMS).step_by(997) {
        assert!(!state.is_member(index));
    }
    assert!(!state.is_member(u64::MAX));
}

#[test]
fn record_marks_the_three_residues_of_the_slot() {
    let mut state = fresh(2_000);
    assert!(state.try_record(1_000));
    // 1000 mod 971 = 29, 1000 mod 311 = 67, 1000 mod 601 = 399
    let mut lane0 = [0u8; 122];
    lane0[3] = 1 << 5;
    let mut lane1 = [0u8; 39];
    lane1[8] = 1 << 3;
    let mut lane2 = [0u8; 76];
    lane2[49] = 1 << 7;
    assert_eq!(state.claim_residues0, lane0);
    assert_eq!(state.claim_residues1, lane1);
    assert_eq!(state.claim_residues2, lane2);
    assert!(state.is_member(1_000));
}

#[test]
fn record_leaves_the_rest_of_the_record_alone() {
    let mut state = fresh(2_000);
    let before = state;
    assert!(state.try_record(7));
    assert_eq!(state.authority, before.authority);
    assert_eq!(state.snapshot_hash, before.snapshot_hash);
    assert_eq!(state.claim_start_ts, before.claim_start_ts);
    assert_eq!(state.claim_duration, before.claim_duration);
    assert_eq!(state.claim_closed, before.claim_closed);
    assert_eq!(state.merkle_root, before.merkle_root);
    assert_eq!(state.total_claims, before.total_claims);
}

#[test]
fn second_record_of_a_slot_is_refused_and_changes_nothing() {
    let mut state = fresh(2_000);
    assert!(state.try_record(42));
    let marked = state;
    assert!(!state.try_record(42));
    assert_eq!(state, marked);
}

#[test]
fn recorded_slots_stay_members() {
    let mut state = fresh(MAX_CLAIMS);
    let mut recorded = Vec::new();
    for index in [0u64, 1, 5, 970, 999_999, 123_456, 311, 601, 972] {
        if state.try_record(index) {
            recorded.push(index);
        }
        for seen in &recorded {
            assert!(state.is_member(*seen));
        }
    }
    assert!(recorded.contains(&0));
    assert!(recorded.contains(&999_999));
}

#[test]
fn membership_is_an_or_over_the_lanes() {
    let mut state = fresh(MAX_CLAIMS);
    assert!(state.try_record(5));
    // Same residue under 311 only: 5 + 311 = 316.
    assert_eq!((316 % 971, 316 % 311, 316 % 601), (316, 5, 316));
    assert!(state.is_member(316));
    // Same residue under 971 only.
    assert!(state.is_member(5 + 971));
    // Same residue under 601 only.
    assert!(state.is_member(5 + 601));
    // No residue in common.
    assert!(!state.is_member(6));
    assert!(!state.is_member(317));
}

#[test]
fn unmarked_slot_sharing_a_residue_is_rejected() {
    let mut state = fresh(MAX_CLAIMS);
    // All of these are 7 modulo 311.
    for k in 0..20u64 {
        state.try_record(7 + 311 * k);
    }
    let before = state;
    let never_marked = 7 + 311 * 1_000;
    assert!(state.is_member(never_marked));
    assert!(!state.try_record(never_marked));
    assert_eq!(state, before);
}

#[test]
fn a_slot_is_turned_away_exactly_when_it_shares_a_residue() {
    let mut state = fresh(MAX_CLAIMS);
    let mut recorded: Vec<u64> = Vec::new();
    for index in [3u64, 974, 1_945, 100_000, 314, 625, 77_777] {
        if state.try_record(index) {
            recorded.push(index);
        }
    }
    for other in 0..20_000u64 {
        let shares = recorded.iter().any(|seen| {
            seen % 971 == other % 971 || seen % 311 == other % 311 || seen % 601 == other % 601
        });
        assert_eq!(state.is_member(other), shares, "slot {}", other);
    }
}

#[test]
fn false_rejections_follow_the_residue_counts() {
    let mut state = fresh(MAX_CLAIMS);
    let mut recorded: Vec<u64> = Vec::new();
    let mut next = 17u64;
    while recorded.len() < 40 {
        next = (next * 48_271 + 11) % MAX_CLAIMS;
        if state.try_record(next) {
            recorded.push(next);
        }
    }
    let distinct = |m: u64| {
        let mut seen: Vec<u64> = recorded.iter().map(|i| i % m).collect();
        seen.sort();
        seen.dedup();
        seen.len() as f64
    };
    let predicted = 1.0
        - (1.0 - distinct(971) / 971.0) * (1.0 - distinct(311) / 311.0)
            * (1.0 - distinct(601) / 601.0);
    let mut unmarked = 0u64;
    let mut rejected = 0u64;
    for other in 0..MAX_CLAIMS {
        if recorded.contains(&other) {
            continue;
        }
        unmarked += 1;
        if state.is_member(other) {
            rejected += 1;
        }
    }
    let observed = rejected as f64 / unmarked as f64;
    assert!(rejected > 0);
    assert!((observed - predicted).abs() < 0.001, "{} vs {}", observed, predicted);
}

#[test]
fn false_rejections_grow_with_the_marks() {
    let mut state = fresh(MAX_CLAIMS);
    let mut last = 0usize;
    for round in 0..5u64 {
        for k in 0..10u64 {
            state.try_record(round * 10_007 + k * 1_013);
        }
        let rejected = (500_000..501_000u64).filter(|j| state.is_member(*j)).count();
        assert!(rejected >= last);
        last = rejected;
    }
    assert!(last > 0);
}

#[test]
fn smallest_lane_fills_first() {
    let mut state = fresh(MAX_CLAIMS);
    for index in 0..311u64 {
        state.try_record(index);
    }
    assert_eq!(state.claim_residues1[..38], [0xffu8; 38]);
    assert_eq!(state.claim_residues1[38], 0x7f);
    for other in (0..MAX_CLAIMS).step_by(4_099) {
        assert!(state.is_member(other));
    }
}

#[test]
fn accepted_slots_of_a_period_number_the_product_of_unmarked_counts() {
    let mut state = fresh(MAX_CLAIMS);
    let mut recorded: Vec<u64> = Vec::new();
    for index in [0u64, 971, 1_942, 311, 601, 5, 999_999, 123_456, 654_321] {
        if state.try_record(index) {
            recorded.push(index);
        }
    }
    let distinct = |m: u64| {
        let mut seen: Vec<u64> = recorded.iter().map(|i| i % m).collect();
        seen.sort();
        seen.dedup();
        seen.len() as u64
    };
    let expected = (971 - distinct(971)) * (311 - distinct(311)) * (601 - distinct(601));
    let period = 971u64 * 311 * 601;
    assert_eq!(period, 181_490_581);
    let mut accepted = 0u64;
    for slot in 0..period {
        if !state.is_member(slot) {
            accepted += 1;
        }
    }
    assert_eq!(accepted, expected);
}
