use bevy_game::actions::{movement_axes, MovementAxes};

fn unit(b: bool) -> i8 {
    if b { 1 } else { 0 }
}

#[test]
fn no_key_no_movement() {
    assert_eq!(movement_axes(false, false, false, false), None);
}

#[test]
fn single_keys() {
    assert_eq!(movement_axes(true, false, false, false), Some(MovementAxes { x: 1, y: 0 }));
    assert_eq!(movement_axes(false, true, false, false), Some(MovementAxes { x: -1, y: 0 }));
    assert_eq!(movement_axes(false, false, true, false), Some(MovementAxes { x: 0, y: 1 }));
    assert_eq!(movement_axes(false, false, false, true), Some(MovementAxes { x: 0, y: -1 }));
}

#[test]
fn diagonal() {
    assert_eq!(movement_axes(true, false, true, false), Some(MovementAxes { x: 1, y: 1 }));
    assert_eq!(movement_axes(false, true, false, true), Some(MovementAxes { x: -1, y: -1 }));
}

#[test]
fn law_opposite_keys_cancel() {
    assert_eq!(movement_axes(true, true, false, false), None);
    assert_eq!(movement_axes(false, false, true, true), None);
    assert_eq!(movement_axes(true, true, true, true), None);
    assert_eq!(movement_axes(true, true, true, false), Some(MovementAxes { x: 0, y: 1 }));
}

#[test]
fn all_combinations() {
    for bits in 0u8..16 {
        let (r, l, u, d) = (bits & 1 != 0, bits & 2 != 0, bits & 4 != 0, bits & 8 != 0);
        let x = unit(r) - unit(l);
        let y = unit(u) - unit(d);
        let expected = if x == 0 && y == 0 { None } else { Some(MovementAxes { x, y }) };
        assert_eq!(movement_axes(r, l, u, d), expected);
        // mirrored keys turn the movement around
        let mirrored = movement_axes(l, r, u, d);
        assert_eq!(mirrored.map(|m| (m.x, m.y)), expected.map(|m| (-m.x, m.y)));
    }
}
