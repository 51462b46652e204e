use klocki::score::Score;

#[test]
fn score_base_table_exact() {
    let table = [
        (1, false, 100),
        (1, true, 800),
        (2, false, 300),
        (2, true, 1200),
        (3, false, 500),
        (3, true, 1600),
        (4, false, 800),
        (0, false, 0),
        (0, true, 0),
        (4, true, 0),
    ];
    for &(rows, t_spin, expected) in table.iter() {
        let mut score = Score::new();
        score.lock(rows, t_spin);
        assert_eq!(score.score(), expected, "rows {} t_spin {}", rows, t_spin);
        assert!(!score.btb());
        assert_eq!(score.combo(), Some(0));
    }
}

#[test]
fn score_back_to_back_bonus() {
    let mut score = Score::new();
    score.lock(4, false);
    assert_eq!(score.score(), 800);
    assert!(!score.btb());

    // A second hard clear earns half of its base again, plus the running
    // combo bonus (50 x 1).
    score.lock(4, false);
    assert!(score.btb());
    assert_eq!(score.score(), 800 + 800 + 400 + 50);

    // A soft clear breaks the chain.
    score.lock(1, false);
    assert!(!score.btb());
    assert_eq!(score.score(), 800 + 800 + 400 + 50 + 100 + 100);
}

#[test]
fn score_combo_counts_consecutive_clearing_locks() {
    let mut score = Score::new();
    score.lock(1, false);
    assert_eq!(score.combo(), Some(0));
    assert_eq!(score.score(), 100);
    score.lock(1, false);
    assert_eq!(score.combo(), Some(1));
    assert_eq!(score.score(), 100 + 100 + 50);
    score.lock(1, false);
    assert_eq!(score.combo(), Some(2));
    assert_eq!(score.score(), 100 + 150 + 100 + 100);
    score.reset_combo();
    assert_eq!(score.combo(), None);
    score.lock(1, false);
    assert_eq!(score.combo(), Some(0));
}

#[test]
fn score_tspin_single_is_hard() {
    let mut score = Score::new();
    score.lock(1, true);
    assert_eq!(score.score(), 800);
    score.lock(1, true);
    assert!(score.btb());
    assert_eq!(score.score(), 800 + 800 + 400 + 50);
}

#[test]
fn score_drops() {
    let mut score = Score::new();
    score.soft_drop(3);
    assert_eq!(score.score(), 3);
    score.hard_drop(5);
    assert_eq!(score.score(), 13);
}

#[test]
fn tspin_zero_rows_keeps_btb_eligibility() {
    let mut score = Score::new();
    score.lock(4, false);
    assert_eq!(score.score(), 800);

    // A T-spin that clears nothing scores no base points (only the running
    // combo's 50) and must not break the hard chain.
    score.lock(0, true);
    assert!(!score.btb());
    assert_eq!(score.score(), 850);

    // The next hard clear still earns the back-to-back bonus.
    score.lock(4, false);
    assert!(score.btb());
    assert_eq!(score.score(), 850 + 800 + 400 + 100);
}

#[test]
fn score_never_decreases() {
    let mut score = Score::new();
    let mut previous = score.score();
    let locks = [
        (1, false),
        (0, true),
        (4, false),
        (4, false),
        (0, false),
        (3, true),
        (2, true),
    ];
    for &(rows, t_spin) in locks.iter() {
        score.lock(rows, t_spin);
        assert!(score.score() >= previous);
        previous = score.score();
    }
}
