use klocki::piece::Piece;
use klocki::stack::{Locked, Stack};
use klocki::shape::all_shape_types;

/// Reference mask-based collision: some non-zero cell of the 4x4 mask is
/// outside the grid or on a filled cell.
fn reference_collision(stack: &Stack, piece: &Piece) -> bool {
    let grid = piece.grid();
    for r in 0..4i32 {
        for c in 0..4i32 {
            if grid.grid[r as usize][c as usize] != 0 {
                let gx = piece.x + c;
                let gy = piece.y + r;
                if gx < 0 || gx >= stack.width || gy < 0 || gy >= stack.height + stack.vanish {
                    return true;
                }
                if stack.grid()[gy as usize][gx as usize] != 0 {
                    return true;
                }
            }
        }
    }
    false
}

#[test]
fn collision_matches_mask_exhaustively() {
    let mut stack = Stack::new(5, 5, 0);
    // A small uneven floor.
    stack.grid[4][0] = 1;
    stack.grid[4][1] = 2;
    stack.grid[3][1] = 3;
    stack.grid[2][4] = 4;

    for t in all_shape_types() {
        let mut piece = Piece::new(t, &stack);
        for rotation in 0..4 {
            piece.rotation = rotation;
            for x in -5..10 {
                for y in -5..10 {
                    piece.x = x;
                    piece.y = y;
                    assert_eq!(
                        stack.collision(&piece),
                        reference_collision(&stack, &piece),
                        "shape {:?} rot {} at ({}, {})",
                        t,
                        rotation,
                        x,
                        y
                    );
                }
            }
        }
    }
}

#[test]
fn lock_reports_full_rows_and_update_collapses_them() {
    let mut stack = Stack::new(4, 6, 0);
    // Rows 4 and 5 are full except for the two leftmost columns; row 2
    // keeps a marker that must survive the clear one step lower.
    for x in 2..4 {
        stack.grid[4][x] = 7;
        stack.grid[5][x] = 7;
    }
    stack.grid[2][3] = 5;

    // An O piece fills the 2x2 hole at the bottom left, completing both
    // rows.
    let mut piece = Piece::new(klocki::ShapeType::O, &stack);
    piece.x = 0;
    piece.y = 4;
    assert!(!stack.collision(&piece));

    match stack.lock(&piece, 1000) {
        Locked::Success(rows) => assert_eq!(rows, 2),
        Locked::Collision => panic!("lock reported a collision"),
    }
    assert!(stack.blocked());

    // Nothing moves until the clear delay elapses.
    let out = stack.update(400);
    assert!(out.is_empty());
    assert!(stack.blocked());

    let destroyed = stack.update(600);
    assert!(!stack.blocked());
    // Both full rows report all four cells each.
    assert_eq!(destroyed.len(), 8);
    assert_eq!(destroyed[0].y, 4);
    assert_eq!(destroyed[4].y, 5);

    // The marker dropped two rows; everything else is empty.
    for y in 0..6 {
        for x in 0..4 {
            let expected = if y == 4 && x == 3 { 5 } else { 0 };
            assert_eq!(stack.grid()[y][x], expected, "cell ({}, {})", y, x);
        }
    }
}

#[test]
fn lock_in_vanish_zone_is_a_collision() {
    let stack0 = Stack::new(10, 20, 20);
    let mut stack = stack0;
    let mut piece = Piece::new(klocki::ShapeType::O, &stack);
    // Entirely above the vanish boundary: game over.
    piece.y = 0;
    match stack.lock(&piece, 0) {
        Locked::Collision => (),
        Locked::Success(_) => panic!("a lock inside the vanish zone must end the game"),
    }
}

#[test]
fn lock_overlapping_is_a_collision() {
    let mut stack = Stack::new(10, 20, 20);
    stack.grid[39][0] = 1;
    stack.grid[39][1] = 1;
    let mut piece = Piece::new(klocki::ShapeType::O, &stack);
    piece.x = 0;
    piece.y = 38;
    assert!(stack.collision(&piece));
    match stack.lock(&piece, 0) {
        Locked::Collision => (),
        Locked::Success(_) => panic!("an overlapping lock must end the game"),
    }
}

#[test]
fn game_over_queues_every_occupied_row() {
    let mut stack = Stack::new(4, 4, 0);
    stack.grid[1][2] = 3;
    stack.grid[3][0] = 1;
    stack.game_over();
    assert!(stack.blocked());
    let destroyed = stack.update(0);
    assert_eq!(destroyed.len(), 2);
}

#[test]
fn clear_empties_the_grid() {
    let mut stack = Stack::new(4, 4, 0);
    stack.grid[2][2] = 5;
    stack.clear();
    for y in 0..4 {
        for x in 0..4 {
            assert_eq!(stack.grid()[y][x], 0);
        }
    }
}

#[test]
fn debug_boards_fill_their_regions() {
    let mut stack = Stack::new(10, 20, 20);
    stack.debug_tetris();
    for y in 0..40 {
        for x in 0..10 {
            let filled = stack.grid()[y][x] != 0;
            assert_eq!(filled, (24..40).contains(&y) && x < 9);
        }
    }

    let mut stack = Stack::new(10, 20, 20);
    stack.debug_t_spin();
    // Spot checks: the overhang, the notch and the solid block.
    assert!(stack.grid()[39][0] != 0);
    assert!(stack.grid()[25][2] != 0);
    assert!(stack.grid()[26][3] != 0);
    assert!(stack.grid()[28][9] != 0);
    assert_eq!(stack.grid()[27][2], 0);
    assert_eq!(stack.grid()[39][2], 0);
}

#[test]
fn lock_on_the_top_visible_row_is_not_game_over() {
    // An I piece lying flat occupies only row offset_y = 1 of its mask, so
    // at y = vanish - 1 its blocks rest in the first visible row: a legal,
    // visible lock.
    let mut stack = Stack::new(10, 20, 20);
    let mut piece = Piece::new(klocki::ShapeType::I, &stack);
    piece.x = 3;
    piece.y = 19;
    assert!(!stack.collision(&piece));
    match stack.lock(&piece, 0) {
        Locked::Success(rows) => assert_eq!(rows, 0),
        Locked::Collision => panic!("a lock in the top visible row must not end the game"),
    }
    for x in 3..7 {
        assert_ne!(stack.grid()[20][x], 0);
    }
}

#[test]
fn lock_wholly_above_the_boundary_is_game_over() {
    // One row higher, the same piece rests entirely inside the vanish zone.
    let mut stack = Stack::new(10, 20, 20);
    let mut piece = Piece::new(klocki::ShapeType::I, &stack);
    piece.x = 3;
    piece.y = 18;
    assert!(!stack.collision(&piece));
    match stack.lock(&piece, 0) {
        Locked::Collision => (),
        Locked::Success(_) => panic!("a lock wholly inside the vanish zone must end the game"),
    }
}
