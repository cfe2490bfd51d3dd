use stakechain::chain::Blockchain;

#[test]
fn weighted_selection_frequency() {
    // Stakes A:70 and B:30. Over many draws the empirical frequency of A
    // stays near 70%: with 2000 draws the count is within a wide band around
    // 1400 (more than eight standard deviations), so a fair weighted draw
    // fails this only with negligible probability.
    let mut bc = Blockchain::new();
    bc.create_account("A", 100);
    bc.create_account("B", 100);
    assert!(bc.add_validator("A", 70));
    assert!(bc.add_validator("B", 30));

    let draws: u32 = 2000;
    let mut a_count: u32 = 0;
    for _ in 0..draws {
        let picked = bc.select_validator().expect("positive total stake");
        if picked == "A" {
            a_count += 1;
        } else {
            assert_eq!(picked, "B");
        }
    }
    assert!(a_count > 1220, "A selected only {} times of {}", a_count, draws);
    assert!(a_count < 1580, "A selected {} times of {}", a_count, draws);
}

#[test]
fn selection_needs_positive_stake() {
    let mut bc = Blockchain::new();
    assert_eq!(bc.select_validator(), None);
    bc.create_account("A", 100);
    assert!(bc.add_validator("A", 0));
    assert_eq!(bc.select_validator(), None);
}

#[test]
fn sole_positive_stake_always_selected() {
    let mut bc = Blockchain::new();
    bc.create_account("A", 100);
    bc.create_account("B", 100);
    assert!(bc.add_validator("A", 5));
    assert!(bc.add_validator("B", 0));
    for _ in 0..50 {
        assert_eq!(bc.select_validator(), Some("A".to_string()));
    }
}
