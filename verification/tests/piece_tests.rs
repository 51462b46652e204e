use klocki::piece::{Movement, Piece};
use klocki::stack::Stack;
use klocki::ShapeType;

#[test]
fn shift_moves_or_reverts() {
    let stack = Stack::new(10, 20, 20);
    let mut piece = Piece::new(ShapeType::T, &stack);
    let x0 = piece.x;

    assert!(piece.shift(1, 0, &stack));
    assert_eq!(piece.x, x0 + 1);
    assert_eq!(piece.last_movement, Movement::Shift);

    // Push against the left wall until the shift is refused.
    let mut moved = 0;
    while piece.shift(-1, 0, &stack) {
        moved += 1;
        assert!(moved < 100);
    }
    let x_wall = piece.x;
    assert!(!piece.shift(-1, 0, &stack));
    assert_eq!(piece.x, x_wall);
}

#[test]
fn fall_lands_on_the_floor_and_clears_the_tag() {
    let stack = Stack::new(10, 20, 20);
    let mut piece = Piece::new(ShapeType::I, &stack);
    let y0 = piece.y;
    let rows = piece.fall(&stack);
    assert!(rows > 0);
    assert_eq!(piece.y, y0 + rows);
    assert_eq!(piece.last_movement, Movement::Idle);
    assert!(piece.touching_floor(&stack));
    assert_eq!(piece.fall(&stack), 0);
}

#[test]
fn rotation_against_the_wall_kicks_or_reverts() {
    let stack = Stack::new(10, 20, 20);

    // An I piece standing upright against the left wall: the plain
    // rotation would poke out of the grid, so a kick must resolve it.
    let mut piece = Piece::new(ShapeType::I, &stack);
    assert!(piece.rotate(true, &stack));
    assert_eq!(piece.rotation, 1);
    piece.x = -2;
    assert!(!stack.collision(&piece));
    let y0 = piece.y;
    assert!(piece.rotate(true, &stack));
    assert_eq!(piece.rotation, 2);
    // The kick moved the piece back inside.
    assert!(piece.x > -2 || piece.y != y0);
    assert_eq!(piece.last_movement, Movement::Rotate);
}

#[test]
fn failed_rotation_leaves_the_piece_untouched() {
    let mut stack = Stack::new(10, 20, 20);
    // A tight single-column shaft at the left wall, exactly one cell wide.
    for y in 20..40 {
        for x in 1..10 {
            stack.grid[y][x] = 1;
        }
    }
    let mut piece = Piece::new(ShapeType::I, &stack);
    piece.rotation = 1;
    piece.x = -2;
    piece.y = 30;
    assert!(!stack.collision(&piece));

    let x0 = piece.x;
    let y0 = piece.y;
    let tag0 = piece.last_movement;
    assert!(!piece.rotate(true, &stack));
    assert_eq!(piece.rotation, 1);
    assert_eq!(piece.x, x0);
    assert_eq!(piece.y, y0);
    assert_eq!(piece.last_movement, tag0);
}

#[test]
fn t_spin_needs_three_corners_and_a_final_rotation() {
    let mut stack = Stack::new(10, 20, 20);
    // Fill three diagonal corners around the T's centre at (1 + 1, 37 + 1).
    stack.grid[37][1] = 1;
    stack.grid[39][1] = 1;
    stack.grid[39][3] = 1;

    let mut piece = Piece::new(ShapeType::T, &stack);
    piece.x = 1;
    piece.y = 37;
    piece.last_movement = Movement::Rotate;
    assert!(piece.t_spin(&stack));

    piece.last_movement = Movement::Shift;
    assert!(!piece.t_spin(&stack));

    piece.last_movement = Movement::Rotate;
    stack.grid[39][1] = 0;
    assert!(!piece.t_spin(&stack));
}

#[test]
fn t_spin_counts_walls_as_occupied() {
    let mut stack = Stack::new(10, 20, 20);
    // Against the left wall, the two left corners are out of bounds; one
    // filled right corner reaches the three needed.
    stack.grid[39][1] = 1;
    let mut piece = Piece::new(ShapeType::T, &stack);
    piece.x = -1;
    piece.y = 37;
    piece.last_movement = Movement::Rotate;
    assert!(piece.t_spin(&stack));
}

#[test]
fn only_t_pieces_spin() {
    let stack = Stack::new(10, 20, 20);
    let mut piece = Piece::new(ShapeType::L, &stack);
    piece.last_movement = Movement::Rotate;
    assert!(!piece.t_spin(&stack));
}

#[test]
fn lock_delay_timer_runs_only_on_the_floor() {
    let stack = Stack::new(10, 20, 20);
    let mut piece = Piece::new(ShapeType::S, &stack);
    piece.update(500, &stack);
    assert_eq!(piece.locking(), 0);
    piece.fall(&stack);
    piece.update(500, &stack);
    assert_eq!(piece.locking(), 500);
    piece.update(250, &stack);
    assert_eq!(piece.locking(), 750);
}
