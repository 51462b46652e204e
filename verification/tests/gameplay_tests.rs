use klocki::action::Action;
use klocki::gameplay::{Gameplay, GameplayConfig};
use klocki::replay::Replay;

const SECOND: u64 = 1_000_000;

fn quick_config() -> GameplayConfig {
    GameplayConfig {
        fall_interval: 3_600 * SECOND,
        lock_delay: 3_600 * SECOND,
        clear_delay: 0,
        entry_delay: 0,
    }
}

/// Runs the ready-set-go countdown so the game accepts input.
fn skip_countdown(g: &mut Gameplay) {
    g.update(SECOND);
    g.update(SECOND);
    assert!(!g.paused());
}

fn grid_fingerprint(g: &Gameplay) -> Vec<Vec<usize>> {
    g.stack.grid().clone()
}

#[test]
fn no_input_is_processed_before_the_countdown_ends() {
    let mut g = Gameplay::new(quick_config(), true, &[0u8; 32]);
    assert!(g.paused());
    g.action(Action::HardDrop, false);
    g.update(1000);
    // Still counting down: the piece has not moved, nothing locked.
    assert_eq!(g.score(), 0);
    for row in g.stack.grid() {
        for &cell in row {
            assert_eq!(cell, 0);
        }
    }
}

#[test]
fn hard_drops_lock_and_score() {
    let mut g = Gameplay::new(quick_config(), true, &[0u8; 32]);
    skip_countdown(&mut g);

    for _ in 0..4 {
        g.action(Action::HardDrop, false);
        g.update(1000);
    }

    // Four pieces rest on the floor: 16 filled cells, two points per
    // dropped row.
    let filled: usize = g
        .stack
        .grid()
        .iter()
        .map(|row| row.iter().filter(|&&c| c != 0).count())
        .sum();
    assert_eq!(filled, 16);
    assert!(g.score() > 0);
    assert!(!g.game_over());
}

#[test]
fn identical_runs_reach_identical_states() {
    let script = [
        Action::MoveLeft,
        Action::RotateClockwise,
        Action::HardDrop,
        Action::MoveRight,
        Action::HardDrop,
        Action::SoftDrop,
        Action::HoldPiece,
        Action::HardDrop,
    ];
    let mut runs = Vec::new();
    for _ in 0..2 {
        let mut g = Gameplay::new(quick_config(), true, &[42u8; 32]);
        skip_countdown(&mut g);
        for &a in script.iter() {
            g.action(a, false);
            g.update(1000);
        }
        runs.push((grid_fingerprint(&g), g.score(), g.game_over()));
    }
    assert_eq!(runs[0], runs[1]);
}

#[test]
fn hold_swaps_only_once_per_piece() {
    let mut g = Gameplay::new(quick_config(), true, &[1u8; 32]);
    skip_countdown(&mut g);

    let first = g.piece.shape();
    g.action(Action::HoldPiece, false);
    g.update(1000);
    let second = g.piece.shape();
    assert!(g.holder.shape == Some(first));
    assert!(g.holder.locked);

    // A second hold before any lock is refused: the active piece stays.
    g.action(Action::HoldPiece, false);
    g.update(1000);
    assert_eq!(g.piece.shape(), second);
    assert!(g.holder.shape == Some(first));
}

#[test]
fn stacking_to_the_top_ends_the_game() {
    let mut g = Gameplay::new(quick_config(), true, &[0u8; 32]);
    skip_countdown(&mut g);

    for _ in 0..200 {
        if g.game_over() {
            break;
        }
        g.action(Action::HardDrop, false);
        g.update(1000);
    }
    assert!(g.game_over());
}

#[test]
fn replay_reproduces_the_recorded_game() {
    let script = [
        Action::MoveLeft,
        Action::HardDrop,
        Action::RotateClockwise,
        Action::HardDrop,
        Action::MoveRight,
        Action::MoveRight,
        Action::HardDrop,
        Action::HoldPiece,
        Action::HardDrop,
    ];
    let mut g = Gameplay::new(quick_config(), true, &[9u8; 32]);
    skip_countdown(&mut g);
    for &a in script.iter() {
        g.action(a, false);
        g.update(1000);
    }
    let recorded = g.replay_data().clone();

    let mut replay = Replay::new(quick_config(), recorded);
    // Generous playback: feed due actions and tick the game each frame.
    for _ in 0..4000 {
        replay.update(1000);
        replay.gameplay.update(1000);
    }

    assert_eq!(grid_fingerprint(&g), grid_fingerprint(&replay.gameplay));
    assert_eq!(g.score(), replay.gameplay.score());
    assert_eq!(g.game_over(), replay.gameplay.game_over());
}

#[test]
fn golden_scenario_four_hard_drops_from_the_zero_seed() {
    // Empty 10x20 board with a 20-row vanish zone, the all-zero seed, and
    // four hard drops: the zero-seed bag opens J, L, O, Z, which pile up
    // into this exact board for 136 points of drop credit.
    let mut g = Gameplay::new(quick_config(), true, &[0u8; 32]);
    skip_countdown(&mut g);
    for _ in 0..4 {
        g.action(Action::HardDrop, false);
        g.update(1000);
    }

    assert_eq!(g.score(), 136);

    let expected = [
        (32, 3, 1),
        (32, 4, 1),
        (33, 4, 1),
        (33, 5, 1),
        (34, 4, 3),
        (34, 5, 3),
        (35, 4, 3),
        (35, 5, 3),
        (36, 5, 2),
        (37, 3, 2),
        (37, 4, 2),
        (37, 5, 2),
        (38, 3, 6),
        (39, 3, 6),
        (39, 4, 6),
        (39, 5, 6),
    ];
    let mut filled = Vec::new();
    for (y, row) in g.stack.grid().iter().enumerate() {
        for (x, &cell) in row.iter().enumerate() {
            if cell != 0 {
                filled.push((y, x, cell));
            }
        }
    }
    assert_eq!(filled, expected);
}
