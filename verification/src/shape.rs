use vstd::prelude::*;

verus! {

/// One of the seven tetromino kinds. The numeric code of a kind is the
/// non-zero value its blocks leave in the playfield grid.
#[derive(Copy, Clone, Debug, PartialEq, Eq, Structural)]
pub enum ShapeType {
    Z,
    L,
    O,
    S,
    I,
    J,
    T,
}

/// The grid-cell code of a shape kind, in the range 1..=7.
pub open spec fn spec_shape_code(t: ShapeType) -> usize {
    match t {
        ShapeType::Z => 1,
        ShapeType::L => 2,
        ShapeType::O => 3,
        ShapeType::S => 4,
        ShapeType::I => 5,
        ShapeType::J => 6,
        ShapeType::T => 7,
    }
}

pub fn shape_code(t: ShapeType) -> (c: usize)
    ensures
        c == spec_shape_code(t),
{
    match t {
        ShapeType::Z => 1,
        ShapeType::L => 2,
        ShapeType::O => 3,
        ShapeType::S => 4,
        ShapeType::I => 5,
        ShapeType::J => 6,
        ShapeType::T => 7,
    }
}

/// Four candidate (dx, dy) offsets tried in order when a plain rotation
/// collides.
pub type Kick = [(i32, i32); 4];

/// For each starting rotation, the clockwise and counter-clockwise kick lists.
pub type Kicks = [(Kick, Kick); 4];

/// One rotation state of a tetromino: a 4x4 cell mask together with the
/// bounding box of its non-zero cells.
pub struct ShapeGrid {
    pub offset_x: i32,
    pub offset_y: i32,
    pub width: i32,
    pub height: i32,
    pub grid: [[usize; 4]; 4],
}

impl ShapeGrid {
    pub fn new(
        offset_x: i32,
        offset_y: i32,
        width: i32,
        height: i32,
        grid: [[usize; 4]; 4],
    ) -> (g: ShapeGrid)
        ensures
            g == (ShapeGrid { offset_x, offset_y, width, height, grid }),
    {
        ShapeGrid { offset_x, offset_y, width, height, grid }
    }
}

/// The full static geometry of one tetromino kind: its four rotation grids
/// and its kick table.
pub struct Shape {
    pub shape_type: ShapeType,
    pub grids: [ShapeGrid; 4],
    pub kicks: Kicks,
}

/// Kick table shared by the J, L, S, T and Z pieces.
pub open spec fn spec_kicks_jlstz() -> Kicks {
    [
        ([(-1i32, 0i32), (-1i32, -1i32), (0, 2), (-1i32, 2i32)], [(1, 0), (1i32, -1i32), (0, 2), (1, 2)]),
        ([(1, 0), (1, 1), (0i32, -2i32), (1i32, -2i32)], [(1, 0), (1, 1), (0i32, -2i32), (1i32, -2i32)]),
        ([(1, 0), (1i32, -1i32), (0, 2), (1, 2)], [(-1i32, 0i32), (-1i32, -1i32), (0, 2), (-1i32, 2i32)]),
        ([(-1i32, 0i32), (-1i32, 1i32), (0i32, -2i32), (-1i32, -2i32)], [(-1i32, 0i32), (-1i32, 1i32), (0i32, -2i32), (-1i32, -2i32)]),
    ]
}

/// Kick table of the I piece, whose pivot differs from the other shapes.
pub open spec fn spec_kicks_i() -> Kicks {
    [
        ([(-2i32, 0i32), (1, 0), (-2i32, 1i32), (1i32, -2i32)], [(-1i32, 0i32), (2, 0), (-1i32, -2i32), (2, 1)]),
        ([(-1i32, 0i32), (2, 0), (-1i32, -2i32), (2, 1)], [(2, 0), (-1i32, 0i32), (2i32, -1i32), (-1i32, 2i32)]),
        ([(2, 0), (-1i32, 0i32), (2i32, -1i32), (-1i32, 2i32)], [(1, 0), (-2i32, 0i32), (1, 2), (-2i32, -1i32)]),
        ([(1, 0), (-2i32, 0i32), (1, 2), (-2i32, -1i32)], [(-2i32, 0i32), (1, 0), (-2i32, 1i32), (1i32, -2i32)]),
    ]
}

/// The exact geometry of each shape kind: the single source of truth that
/// `Shape::new` is proved to return.
pub open spec fn spec_shape(t: ShapeType) -> Shape {
    match t {
        ShapeType::Z => Shape {
            shape_type: ShapeType::Z,
            grids: [
                ShapeGrid { offset_x: 0, offset_y: 0, width: 3, height: 2,
                    grid: [[1, 1, 0, 0], [0, 1, 1, 0], [0, 0, 0, 0], [0, 0, 0, 0]] },
                ShapeGrid { offset_x: 1, offset_y: 0, width: 2, height: 3,
                    grid: [[0, 0, 1, 0], [0, 1, 1, 0], [0, 1, 0, 0], [0, 0, 0, 0]] },
                ShapeGrid { offset_x: 0, offset_y: 1, width: 3, height: 2,
                    grid: [[0, 0, 0, 0], [1, 1, 0, 0], [0, 1, 1, 0], [0, 0, 0, 0]] },
                ShapeGrid { offset_x: 0, offset_y: 0, width: 2, height: 3,
                    grid: [[0, 1, 0, 0], [1, 1, 0, 0], [1, 0, 0, 0], [0, 0, 0, 0]] },
            ],
            kicks: spec_kicks_jlstz(),
        },
        ShapeType::L => Shape {
            shape_type: ShapeType::L,
            grids: [
                ShapeGrid { offset_x: 0, offset_y: 0, width: 3, height: 2,
                    grid: [[0, 0, 2, 0], [2, 2, 2, 0], [0, 0, 0, 0], [0, 0, 0, 0]] },
                ShapeGrid { offset_x: 1, offset_y: 0, width: 2, height: 3,
                    grid: [[0, 2, 0, 0], [0, 2, 0, 0], [0, 2, 2, 0], [0, 0, 0, 0]] },
                ShapeGrid { offset_x: 0, offset_y: 1, width: 3, height: 2,
                    grid: [[0, 0, 0, 0], [2, 2, 2, 0], [2, 0, 0, 0], [0, 0, 0, 0]] },
                ShapeGrid { offset_x: 0, offset_y: 0, width: 2, height: 3,
                    grid: [[2, 2, 0, 0], [0, 2, 0, 0], [0, 2, 0, 0], [0, 0, 0, 0]] },
            ],
            kicks: spec_kicks_jlstz(),
        },
        ShapeType::O => Shape {
            shape_type: ShapeType::O,
            grids: [
                ShapeGrid { offset_x: 0, offset_y: 0, width: 2, height: 2,
                    grid: [[3, 3, 0, 0], [3, 3, 0, 0], [0, 0, 0, 0], [0, 0, 0, 0]] },
                ShapeGrid { offset_x: 0, offset_y: 0, width: 2, height: 2,
                    grid: [[3, 3, 0, 0], [3, 3, 0, 0], [0, 0, 0, 0], [0, 0, 0, 0]] },
                ShapeGrid { offset_x: 0, offset_y: 0, width: 2, height: 2,
                    grid: [[3, 3, 0, 0], [3, 3, 0, 0], [0, 0, 0, 0], [0, 0, 0, 0]] },
                ShapeGrid { offset_x: 0, offset_y: 0, width: 2, height: 2,
                    grid: [[3, 3, 0, 0], [3, 3, 0, 0], [0, 0, 0, 0], [0, 0, 0, 0]] },
            ],
            kicks: spec_kicks_jlstz(),
        },
        ShapeType::S => Shape {
            shape_type: ShapeType::S,
            grids: [
                ShapeGrid { offset_x: 0, offset_y: 0, width: 3, height: 2,
                    grid: [[0, 4, 4, 0], [4, 4, 0, 0], [0, 0, 0, 0], [0, 0, 0, 0]] },
                ShapeGrid { offset_x: 1, offset_y: 0, width: 2, height: 3,
                    grid: [[0, 4, 0, 0], [0, 4, 4, 0], [0, 0, 4, 0], [0, 0, 0, 0]] },
                ShapeGrid { offset_x: 0, offset_y: 1, width: 3, height: 2,
                    grid: [[0, 0, 0, 0], [0, 4, 4, 0], [4, 4, 0, 0], [0, 0, 0, 0]] },
                ShapeGrid { offset_x: 0, offset_y: 0, width: 2, height: 3,
                    grid: [[4, 0, 0, 0], [4, 4, 0, 0], [0, 4, 0, 0], [0, 0, 0, 0]] },
            ],
            kicks: spec_kicks_jlstz(),
        },
        ShapeType::I => Shape {
            shape_type: ShapeType::I,
            grids: [
                ShapeGrid { offset_x: 0, offset_y: 1, width: 4, height: 1,
                    grid: [[0, 0, 0, 0], [5, 5, 5, 5], [0, 0, 0, 0], [0, 0, 0, 0]] },
                ShapeGrid { offset_x: 2, offset_y: 0, width: 1, height: 4,
                    grid: [[0, 0, 5, 0], [0, 0, 5, 0], [0, 0, 5, 0], [0, 0, 5, 0]] },
                ShapeGrid { offset_x: 0, offset_y: 2, width: 4, height: 1,
                    grid: [[0, 0, 0, 0], [0, 0, 0, 0], [5, 5, 5, 5], [0, 0, 0, 0]] },
                ShapeGrid { offset_x: 1, offset_y: 0, width: 1, height: 4,
                    grid: [[0, 5, 0, 0], [0, 5, 0, 0], [0, 5, 0, 0], [0, 5, 0, 0]] },
            ],
            kicks: spec_kicks_i(),
        },
        ShapeType::J => Shape {
            shape_type: ShapeType::J,
            grids: [
                ShapeGrid { offset_x: 0, offset_y: 0, width: 3, height: 2,
                    grid: [[6, 0, 0, 0], [6, 6, 6, 0], [0, 0, 0, 0], [0, 0, 0, 0]] },
                ShapeGrid { offset_x: 1, offset_y: 0, width: 2, height: 3,
                    grid: [[0, 6, 6, 0], [0, 6, 0, 0], [0, 6, 0, 0], [0, 0, 0, 0]] },
                ShapeGrid { offset_x: 0, offset_y: 1, width: 3, height: 2,
                    grid: [[0, 0, 0, 0], [6, 6, 6, 0], [0, 0, 6, 0], [0, 0, 0, 0]] },
                ShapeGrid { offset_x: 0, offset_y: 0, width: 2, height: 3,
                    grid: [[0, 6, 0, 0], [0, 6, 0, 0], [6, 6, 0, 0], [0, 0, 0, 0]] },
            ],
            kicks: spec_kicks_jlstz(),
        },
        ShapeType::T => Shape {
            shape_type: ShapeType::T,
            grids: [
                ShapeGrid { offset_x: 0, offset_y: 0, width: 3, height: 2,
                    grid: [[0, 7, 0, 0], [7, 7, 7, 0], [0, 0, 0, 0], [0, 0, 0, 0]] },
                ShapeGrid { offset_x: 1, offset_y: 0, width: 2, height: 3,
                    grid: [[0, 7, 0, 0], [0, 7, 7, 0], [0, 7, 0, 0], [0, 0, 0, 0]] },
                ShapeGrid { offset_x: 0, offset_y: 1, width: 3, height: 2,
                    grid: [[0, 0, 0, 0], [7, 7, 7, 0], [0, 7, 0, 0], [0, 0, 0, 0]] },
                ShapeGrid { offset_x: 0, offset_y: 0, width: 2, height: 3,
                    grid: [[0, 7, 0, 0], [7, 7, 0, 0], [0, 7, 0, 0], [0, 0, 0, 0]] },
            ],
            kicks: spec_kicks_jlstz(),
        },
    }
}

/// The cell written at row `r`, column `c` of the 4x4 mask of shape `t` in
/// rotation `rot`: 0 for empty, the shape's code otherwise.
pub open spec fn shape_cell(t: ShapeType, rot: int, r: int, c: int) -> usize {
    spec_shape(t).grids@[rot].grid@[r]@[c]
}

/// All seven shape kinds, in their fixed canonical order.
pub open spec fn spec_all_types() -> Seq<ShapeType> {
    seq![
        ShapeType::Z,
        ShapeType::L,
        ShapeType::O,
        ShapeType::S,
        ShapeType::I,
        ShapeType::J,
        ShapeType::T,
    ]
}

pub fn all_shape_types() -> (v: Vec<ShapeType>)
    ensures
        v@ == spec_all_types(),
{
    let v = vec![
        ShapeType::Z,
        ShapeType::L,
        ShapeType::O,
        ShapeType::S,
        ShapeType::I,
        ShapeType::J,
        ShapeType::T,
    ];
    proof {
        assert(v@ =~= spec_all_types());
    }
    v
}

impl Shape {
    pub fn new(shape_type: ShapeType) -> (s: Shape)
        ensures
            s == spec_shape(shape_type),
            s.shape_type == shape_type,
    {
        let s = match shape_type {
            ShapeType::Z => Shape {
                shape_type: ShapeType::Z,
                grids: [
                    ShapeGrid::new(0, 0, 3, 2, [[1, 1, 0, 0], [0, 1, 1, 0], [0, 0, 0, 0], [0, 0, 0, 0]]),
                    ShapeGrid::new(1, 0, 2, 3, [[0, 0, 1, 0], [0, 1, 1, 0], [0, 1, 0, 0], [0, 0, 0, 0]]),
                    ShapeGrid::new(0, 1, 3, 2, [[0, 0, 0, 0], [1, 1, 0, 0], [0, 1, 1, 0], [0, 0, 0, 0]]),
                    ShapeGrid::new(0, 0, 2, 3, [[0, 1, 0, 0], [1, 1, 0, 0], [1, 0, 0, 0], [0, 0, 0, 0]]),
                ],
                kicks: kicks_jlstz(),
            },
            ShapeType::L => Shape {
                shape_type: ShapeType::L,
                grids: [
                    ShapeGrid::new(0, 0, 3, 2, [[0, 0, 2, 0], [2, 2, 2, 0], [0, 0, 0, 0], [0, 0, 0, 0]]),
                    ShapeGrid::new(1, 0, 2, 3, [[0, 2, 0, 0], [0, 2, 0, 0], [0, 2, 2, 0], [0, 0, 0, 0]]),
                    ShapeGrid::new(0, 1, 3, 2, [[0, 0, 0, 0], [2, 2, 2, 0], [2, 0, 0, 0], [0, 0, 0, 0]]),
                    ShapeGrid::new(0, 0, 2, 3, [[2, 2, 0, 0], [0, 2, 0, 0], [0, 2, 0, 0], [0, 0, 0, 0]]),
                ],
                kicks: kicks_jlstz(),
            },
            ShapeType::O => Shape {
                shape_type: ShapeType::O,
                grids: [
                    ShapeGrid::new(0, 0, 2, 2, [[3, 3, 0, 0], [3, 3, 0, 0], [0, 0, 0, 0], [0, 0, 0, 0]]),
                    ShapeGrid::new(0, 0, 2, 2, [[3, 3, 0, 0], [3, 3, 0, 0], [0, 0, 0, 0], [0, 0, 0, 0]]),
                    ShapeGrid::new(0, 0, 2, 2, [[3, 3, 0, 0], [3, 3, 0, 0], [0, 0, 0, 0], [0, 0, 0, 0]]),
                    ShapeGrid::new(0, 0, 2, 2, [[3, 3, 0, 0], [3, 3, 0, 0], [0, 0, 0, 0], [0, 0, 0, 0]]),
                ],
                kicks: kicks_jlstz(),
            },
            ShapeType::S => Shape {
                shape_type: ShapeType::S,
                grids: [
                    ShapeGrid::new(0, 0, 3, 2, [[0, 4, 4, 0], [4, 4, 0, 0], [0, 0, 0, 0], [0, 0, 0, 0]]),
                    ShapeGrid::new(1, 0, 2, 3, [[0, 4, 0, 0], [0, 4, 4, 0], [0, 0, 4, 0], [0, 0, 0, 0]]),
                    ShapeGrid::new(0, 1, 3, 2, [[0, 0, 0, 0], [0, 4, 4, 0], [4, 4, 0, 0], [0, 0, 0, 0]]),
                    ShapeGrid::new(0, 0, 2, 3, [[4, 0, 0, 0], [4, 4, 0, 0], [0, 4, 0, 0], [0, 0, 0, 0]]),
                ],
                kicks: kicks_jlstz(),
            },
            ShapeType::I => Shape {
                shape_type: ShapeType::I,
                grids: [
                    ShapeGrid::new(0, 1, 4, 1, [[0, 0, 0, 0], [5, 5, 5, 5], [0, 0, 0, 0], [0, 0, 0, 0]]),
                    ShapeGrid::new(2, 0, 1, 4, [[0, 0, 5, 0], [0, 0, 5, 0], [0, 0, 5, 0], [0, 0, 5, 0]]),
                    ShapeGrid::new(0, 2, 4, 1, [[0, 0, 0, 0], [0, 0, 0, 0], [5, 5, 5, 5], [0, 0, 0, 0]]),
                    ShapeGrid::new(1, 0, 1, 4, [[0, 5, 0, 0], [0, 5, 0, 0], [0, 5, 0, 0], [0, 5, 0, 0]]),
                ],
                kicks: kicks_i(),
            },
            ShapeType::J => Shape {
                shape_type: ShapeType::J,
                grids: [
                    ShapeGrid::new(0, 0, 3, 2, [[6, 0, 0, 0], [6, 6, 6, 0], [0, 0, 0, 0], [0, 0, 0, 0]]),
                    ShapeGrid::new(1, 0, 2, 3, [[0, 6, 6, 0], [0, 6, 0, 0], [0, 6, 0, 0], [0, 0, 0, 0]]),
                    ShapeGrid::new(0, 1, 3, 2, [[0, 0, 0, 0], [6, 6, 6, 0], [0, 0, 6, 0], [0, 0, 0, 0]]),
                    ShapeGrid::new(0, 0, 2, 3, [[0, 6, 0, 0], [0, 6, 0, 0], [6, 6, 0, 0], [0, 0, 0, 0]]),
                ],
                kicks: kicks_jlstz(),
            },
            ShapeType::T => Shape {
                shape_type: ShapeType::T,
                grids: [
                    ShapeGrid::new(0, 0, 3, 2, [[0, 7, 0, 0], [7, 7, 7, 0], [0, 0, 0, 0], [0, 0, 0, 0]]),
                    ShapeGrid::new(1, 0, 2, 3, [[0, 7, 0, 0], [0, 7, 7, 0], [0, 7, 0, 0], [0, 0, 0, 0]]),
                    ShapeGrid::new(0, 1, 3, 2, [[0, 0, 0, 0], [7, 7, 7, 0], [0, 7, 0, 0], [0, 0, 0, 0]]),
                    ShapeGrid::new(0, 0, 2, 3, [[0, 7, 0, 0], [7, 7, 0, 0], [0, 7, 0, 0], [0, 0, 0, 0]]),
                ],
                kicks: kicks_jlstz(),
            },
        };
        proof {
            lemma_shape_literal_eq(s, spec_shape(shape_type));
        }
        s
    }
}

/// Two shapes whose corresponding components are extensionally equal are
/// equal; bridges the array literals built in `Shape::new` to `spec_shape`.
proof fn lemma_shape_literal_eq(a: Shape, b: Shape)
    requires
        a.shape_type == b.shape_type,
        forall|i: int| 0 <= i < 4 ==> #[trigger] a.grids@[i].offset_x == b.grids@[i].offset_x,
        forall|i: int| 0 <= i < 4 ==> #[trigger] a.grids@[i].offset_y == b.grids@[i].offset_y,
        forall|i: int| 0 <= i < 4 ==> #[trigger] a.grids@[i].width == b.grids@[i].width,
        forall|i: int| 0 <= i < 4 ==> #[trigger] a.grids@[i].height == b.grids@[i].height,
        forall|i: int, r: int, c: int|
            0 <= i < 4 && 0 <= r < 4 && 0 <= c < 4 ==> #[trigger] a.grids@[i].grid@[r]@[c]
                == b.grids@[i].grid@[r]@[c],
        forall|i: int, k: int|
            0 <= i < 4 && 0 <= k < 4 ==> #[trigger] a.kicks@[i].0@[k] == b.kicks@[i].0@[k],
        forall|i: int, k: int|
            0 <= i < 4 && 0 <= k < 4 ==> #[trigger] a.kicks@[i].1@[k] == b.kicks@[i].1@[k],
    ensures
        a == b,
{
    assert forall|i: int| 0 <= i < 4 implies #[trigger] a.grids@[i] == b.grids@[i] by {
        assert(a.grids@[i].offset_x == b.grids@[i].offset_x);
        assert(a.grids@[i].offset_y == b.grids@[i].offset_y);
        assert(a.grids@[i].width == b.grids@[i].width);
        assert(a.grids@[i].height == b.grids@[i].height);
        assert forall|r: int| 0 <= r < 4 implies #[trigger] a.grids@[i].grid@[r] == b.grids@[i].grid@[r] by {
            assert(a.grids@[i].grid@[r] =~= b.grids@[i].grid@[r]);
        }
        assert(a.grids@[i].grid =~= b.grids@[i].grid);
    }
    assert(a.grids =~= b.grids);
    assert forall|i: int| 0 <= i < 4 implies #[trigger] a.kicks@[i] == b.kicks@[i] by {
        assert(a.kicks@[i].0 =~= b.kicks@[i].0);
        assert(a.kicks@[i].1 =~= b.kicks@[i].1);
    }
    assert(a.kicks =~= b.kicks);
}

fn kicks_jlstz() -> (k: Kicks)
    ensures
        k == spec_kicks_jlstz(),
{
    let k: Kicks = [
        ([(-1i32, 0i32), (-1i32, -1i32), (0, 2), (-1i32, 2i32)], [(1, 0), (1i32, -1i32), (0, 2), (1, 2)]),
        ([(1, 0), (1, 1), (0i32, -2i32), (1i32, -2i32)], [(1, 0), (1, 1), (0i32, -2i32), (1i32, -2i32)]),
        ([(1, 0), (1i32, -1i32), (0, 2), (1, 2)], [(-1i32, 0i32), (-1i32, -1i32), (0, 2), (-1i32, 2i32)]),
        ([(-1i32, 0i32), (-1i32, 1i32), (0i32, -2i32), (-1i32, -2i32)], [(-1i32, 0i32), (-1i32, 1i32), (0i32, -2i32), (-1i32, -2i32)]),
    ];
    proof {
        assert forall|i: int| 0 <= i < 4 implies #[trigger] k@[i] == spec_kicks_jlstz()@[i] by {
            assert(k@[i].0 =~= spec_kicks_jlstz()@[i].0);
            assert(k@[i].1 =~= spec_kicks_jlstz()@[i].1);
        }
        assert(k =~= spec_kicks_jlstz());
    }
    k
}

fn kicks_i() -> (k: Kicks)
    ensures
        k == spec_kicks_i(),
{
    let k: Kicks = [
        ([(-2i32, 0i32), (1, 0), (-2i32, 1i32), (1i32, -2i32)], [(-1i32, 0i32), (2, 0), (-1i32, -2i32), (2, 1)]),
        ([(-1i32, 0i32), (2, 0), (-1i32, -2i32), (2, 1)], [(2, 0), (-1i32, 0i32), (2i32, -1i32), (-1i32, 2i32)]),
        ([(2, 0), (-1i32, 0i32), (2i32, -1i32), (-1i32, 2i32)], [(1, 0), (-2i32, 0i32), (1, 2), (-2i32, -1i32)]),
        ([(1, 0), (-2i32, 0i32), (1, 2), (-2i32, -1i32)], [(-2i32, 0i32), (1, 0), (-2i32, 1i32), (1i32, -2i32)]),
    ];
    proof {
        assert forall|i: int| 0 <= i < 4 implies #[trigger] k@[i] == spec_kicks_i()@[i] by {
            assert(k@[i].0 =~= spec_kicks_i()@[i].0);
            assert(k@[i].1 =~= spec_kicks_i()@[i].1);
        }
        assert(k =~= spec_kicks_i());
    }
    k
}

} // verus!
