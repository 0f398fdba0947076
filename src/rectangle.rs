//! The rectangular attachment-point rule shared by every shape kind.

use vstd::prelude::*;
use crate::stadium::{Direction, DrawingCoord, ShapeDimensions};

verus! {

/// Column of the attachment point for `dir` on a box of width `w` at column `bx`.
pub open spec fn attach_x(dir: Direction, w: int, bx: int) -> int {
    match dir {
        Direction::Up | Direction::Down | Direction::Middle => bx + w / 2,
        Direction::Left | Direction::UpperLeft | Direction::LowerLeft => bx,
        Direction::Right | Direction::UpperRight | Direction::LowerRight => bx + w - 1,
    }
}

/// Row of the attachment point for `dir` on a box of height `h` at row `by`.
pub open spec fn attach_y(dir: Direction, h: int, by: int) -> int {
    match dir {
        Direction::Left | Direction::Right | Direction::Middle => by + h / 2,
        Direction::Up | Direction::UpperLeft | Direction::UpperRight => by,
        Direction::Down | Direction::LowerLeft | Direction::LowerRight => by + h - 1,
    }
}

/// Every coordinate that an attachment point of the box can take fits in `isize`.
pub open spec fn attachment_fits(dimensions: ShapeDimensions, base: DrawingCoord) -> bool {
    &&& dimensions.width <= isize::MAX
    &&& dimensions.height <= isize::MAX
    &&& isize::MIN <= base.x + dimensions.width - 1
    &&& base.x + dimensions.width <= isize::MAX
    &&& isize::MIN <= base.y + dimensions.height - 1
    &&& base.y + dimensions.height <= isize::MAX
}

/// The point on the bounding box at `base_coord` where an edge arriving from
/// `dir` attaches: corners for the corner directions, floored midpoints of the
/// edges for the edge directions, and the floored centre for `Middle`.
pub fn get_box_attachment_point(
    dir: Direction,
    dimensions: &ShapeDimensions,
    base_coord: DrawingCoord,
) -> (r: DrawingCoord)
    requires
        attachment_fits(*dimensions, base_coord),
    ensures
        r.x == attach_x(dir, dimensions.width as int, base_coord.x as int),
        r.y == attach_y(dir, dimensions.height as int, base_coord.y as int),
{
    let width = dimensions.width as isize;
    let height = dimensions.height as isize;

    let center_x = base_coord.x + (width / 2);
    let center_y = base_coord.y + (height / 2);

    match dir {
        Direction::Up => DrawingCoord { x: center_x, y: base_coord.y },
        Direction::Down => DrawingCoord { x: center_x, y: base_coord.y + height - 1 },
        Direction::Left => DrawingCoord { x: base_coord.x, y: center_y },
        Direction::Right => DrawingCoord { x: base_coord.x + width - 1, y: center_y },
        Direction::UpperLeft => DrawingCoord { x: base_coord.x, y: base_coord.y },
        Direction::UpperRight => DrawingCoord { x: base_coord.x + width - 1, y: base_coord.y },
        Direction::LowerLeft => DrawingCoord { x: base_coord.x, y: base_coord.y + height - 1 },
        Direction::LowerRight => DrawingCoord {
            x: base_coord.x + width - 1,
            y: base_coord.y + height - 1,
        },
        Direction::Middle => DrawingCoord { x: center_x, y: center_y },
    }
}

/// Opposite edge directions differ only along their own axis: `Up` and `Down`
/// share a column, `Left` and `Right` share a row; and each corner direction
/// gives one of the four corners of the box.
pub proof fn lemma_attachment_geometry(w: int, h: int, bx: int, by: int)
    ensures
        attach_x(Direction::Up, w, bx) == attach_x(Direction::Down, w, bx),
        attach_y(Direction::Left, h, by) == attach_y(Direction::Right, h, by),
        attach_x(Direction::UpperLeft, w, bx) == bx && attach_y(Direction::UpperLeft, h, by) == by,
        attach_x(Direction::UpperRight, w, bx) == bx + w - 1 && attach_y(Direction::UpperRight, h, by)
            == by,
        attach_x(Direction::LowerLeft, w, bx) == bx && attach_y(Direction::LowerLeft, h, by) == by + h
            - 1,
        attach_x(Direction::LowerRight, w, bx) == bx + w - 1 && attach_y(Direction::LowerRight, h, by)
            == by + h - 1,
{
}

} // verus!
