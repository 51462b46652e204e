use klocki::shape::{all_shape_types, Shape};
use klocki::{shape_code, ShapeType};

#[test]
fn all_seven_types_with_distinct_codes() {
    let types = all_shape_types();
    assert_eq!(types.len(), 7);
    let mut seen = [false; 8];
    for t in types {
        let code = shape_code(t);
        assert!((1..=7).contains(&code));
        assert!(!seen[code]);
        seen[code] = true;
    }
}

#[test]
fn every_rotation_mask_has_four_cells_of_its_code() {
    for t in all_shape_types() {
        let shape = Shape::new(t);
        for rotation in 0..4 {
            let grid = &shape.grids[rotation];
            let mut cells = 0;
            for row in grid.grid.iter() {
                for &cell in row.iter() {
                    if cell != 0 {
                        assert_eq!(cell, shape_code(t));
                        cells += 1;
                    }
                }
            }
            assert_eq!(cells, 4, "shape {:?} rotation {}", t, rotation);
        }
    }
}

#[test]
fn t_shape_masks_are_the_documented_ones() {
    let shape = Shape::new(ShapeType::T);
    let x = shape_code(ShapeType::T);
    assert_eq!(
        shape.grids[0].grid,
        [[0, x, 0, 0], [x, x, x, 0], [0, 0, 0, 0], [0, 0, 0, 0]]
    );
    assert_eq!(
        shape.grids[2].grid,
        [[0, 0, 0, 0], [x, x, x, 0], [0, x, 0, 0], [0, 0, 0, 0]]
    );
    assert_eq!(shape.grids[0].width, 3);
    assert_eq!(shape.grids[0].height, 2);
    assert_eq!(shape.grids[1].offset_x, 1);
}

#[test]
fn i_piece_has_its_own_kick_table() {
    let i = Shape::new(ShapeType::I);
    let t = Shape::new(ShapeType::T);
    assert_eq!(i.kicks[0].0, [(-2, 0), (1, 0), (-2, 1), (1, -2)]);
    assert_eq!(t.kicks[0].0, [(-1, 0), (-1, -1), (0, 2), (-1, 2)]);
    assert_eq!(t.kicks[0].1, [(1, 0), (1, -1), (0, 2), (1, 2)]);
}

#[test]
fn o_piece_rotations_are_identical() {
    let o = Shape::new(ShapeType::O);
    for rotation in 1..4 {
        assert_eq!(o.grids[0].grid, o.grids[rotation].grid);
    }
}

#[test]
fn shape_grid_new_stores_its_fields() {
    let grid = klocki::shape::ShapeGrid::new(
        1,
        0,
        2,
        3,
        [[0, 5, 0, 0], [0, 5, 0, 0], [0, 5, 5, 0], [0, 0, 0, 0]],
    );
    assert_eq!(grid.offset_x, 1);
    assert_eq!(grid.offset_y, 0);
    assert_eq!(grid.width, 2);
    assert_eq!(grid.height, 3);
    assert_eq!(grid.grid[2][2], 5);
}
