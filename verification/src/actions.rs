//! The movement that the player's keys ask for.
//!
//! Each frame of play the four movement keys are read; a key that is held counts one along its
//! axis, and keys of opposite directions cancel. The movement is the pair of net values, and
//! there is none when both are zero.
use vstd::prelude::*;

verus! {

/// The net direction along the two axes of the ground: `x` to the right, `y` forward. Each is
/// `-1`, `0` or `1`, and they are not both `0`.
#[derive(Clone, Copy, Debug, PartialEq, Eq, Structural)]
pub struct MovementAxes {
    pub x: i8,
    pub y: i8,
}

/// The net value along one axis: one for the key of the positive direction, minus one for the
/// key of the negative one.
pub open spec fn axis_value(positive: bool, negative: bool) -> int {
    (if positive {
        1int
    } else {
        0int
    }) - (if negative {
        1int
    } else {
        0int
    })
}

/// The movement asked for by the held keys: `None` where the keys ask for no net movement.
pub open spec fn movement_of(right: bool, left: bool, up: bool, down: bool) -> Option<
    MovementAxes,
> {
    let x = axis_value(right, left);
    let y = axis_value(up, down);
    if x == 0 && y == 0 {
        None
    } else {
        Some(MovementAxes { x: x as i8, y: y as i8 })
    }
}

/// One axis of movement from its two keys.
fn axis(positive: bool, negative: bool) -> (r: i8)
    ensures
        r == axis_value(positive, negative),
{
    let forward: i8 = if positive {
        1
    } else {
        0
    };
    let back: i8 = if negative {
        1
    } else {
        0
    };
    forward - back
}

/// The movement that the held keys ask for: right minus left across, up minus down forward,
/// and no movement where both come to zero.
pub fn movement_axes(right: bool, left: bool, up: bool, down: bool) -> (r: Option<MovementAxes>)
    ensures
        r == movement_of(right, left, up, down),
{
    let x = axis(right, left);
    let y = axis(up, down);
    if x == 0 && y == 0 {
        None
    } else {
        Some(MovementAxes { x, y })
    }
}

/// Law: holding the keys of both directions of an axis is the same as holding neither.
pub proof fn lemma_opposite_keys_cancel(right: bool, left: bool, up: bool, down: bool)
    ensures
        movement_of(true, true, up, down) == movement_of(false, false, up, down),
        movement_of(right, left, true, true) == movement_of(right, left, false, false),
{
}

/// Law: swapping the keys of one axis turns the movement around along that axis and leaves
/// the other axis as it was.
pub proof fn lemma_mirrored_keys(right: bool, left: bool, up: bool, down: bool)
    ensures
        movement_of(right, left, up, down) is Some <==> movement_of(left, right, up, down) is Some,
        movement_of(right, left, up, down) matches Some(m) ==> movement_of(
            left,
            right,
            up,
            down,
        ) == Some(MovementAxes { x: (-m.x) as i8, y: m.y }),
        movement_of(right, left, up, down) matches Some(m) ==> movement_of(
            right,
            left,
            down,
            up,
        ) == Some(MovementAxes { x: m.x, y: (-m.y) as i8 }),
{
}

/// Law: a movement, when there is one, points somewhere: each axis is `-1`, `0` or `1` and
/// they are not both `0`.
pub proof fn lemma_movement_is_a_direction(right: bool, left: bool, up: bool, down: bool)
    ensures
        movement_of(right, left, up, down) matches Some(m) ==> -1 <= m.x <= 1 && -1 <= m.y <= 1
            && (m.x != 0 || m.y != 0),
        movement_of(right, left, up, down) is None <==> (right == left && up == down),
{
}

/// Law: each axis follows its keys: it is `1` where only the key of the positive direction is
/// held, `-1` where only the other one is, and `0` where both or neither are; there is no
/// movement exactly where both axes are `0`.
pub proof fn lemma_axes_follow_keys(right: bool, left: bool, up: bool, down: bool)
    ensures
        movement_of(right, left, up, down) is None <==> (right == left && up == down),
        movement_of(right, left, up, down) matches Some(m) ==> {
            &&& (m.x == 1 <==> (right && !left))
            &&& (m.x == -1 <==> (left && !right))
            &&& (m.x == 0 <==> right == left)
            &&& (m.y == 1 <==> (up && !down))
            &&& (m.y == -1 <==> (down && !up))
            &&& (m.y == 0 <==> up == down)
        },
{
}

} // verus!
