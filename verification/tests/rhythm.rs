use bevy_game::rhythm::{
    judge_click, judged_status, HitStatus, Judgement, NoteProbe, ATTEMPT_WINDOW_BITS, FAR_BITS,
    HIT_WINDOW_BITS,
};

const TARGET: f32 = 20.0;

/// A note at `left` percent, as the rhythm bar hands it over.
fn probe(status: HitStatus, left: Option<f32>) -> NoteProbe {
    NoteProbe {
        status,
        distance_bits: left.map(|l| (l - TARGET).abs().to_bits()),
        ahead: left.map_or(false, |l| l - TARGET > 0.0),
    }
}

/// The click judging as the rhythm bar's system writes it with floats.
fn float_judge(notes: &[(HitStatus, Option<f32>)]) -> Option<(usize, Judgement)> {
    let mut closest: Option<(usize, f32)> = None;
    let mut min_diff = f32::MAX;
    for (i, (status, left)) in notes.iter().enumerate() {
        if *status != HitStatus::Pending {
            continue;
        }
        if let Some(left) = left {
            let diff = (left - TARGET).abs();
            if diff < min_diff {
                min_diff = diff;
                closest = Some((i, left - TARGET));
            }
        }
    }
    let (i, signed) = closest?;
    if signed.abs() <= 0.5 {
        if signed.abs() <= 5.0 {
            Some((i, Judgement::Hit))
        } else if signed > 5.0 {
            Some((i, Judgement::TooEarly))
        } else {
            Some((i, Judgement::TooLate))
        }
    } else {
        None
    }
}

fn judge(notes: &[(HitStatus, Option<f32>)]) -> Option<(usize, Judgement)> {
    let probes: Vec<NoteProbe> = notes.iter().map(|(s, l)| probe(*s, *l)).collect();
    judge_click(&probes)
}

#[test]
fn bounds_are_the_bit_patterns_of_the_windows() {
    assert_eq!(ATTEMPT_WINDOW_BITS, 0.5f32.to_bits());
    assert_eq!(HIT_WINDOW_BITS, 5.0f32.to_bits());
    assert_eq!(FAR_BITS, f32::MAX.to_bits());
}

#[test]
fn no_notes_no_judgement() {
    assert_eq!(judge_click(&Vec::new()), None);
}

#[test]
fn nearest_pending_note_is_hit() {
    let notes = [
        (HitStatus::Pending, Some(20.4)),
        (HitStatus::Pending, Some(19.9)),
        (HitStatus::Pending, Some(60.0)),
    ];
    assert_eq!(judge(&notes), Some((1, Judgement::Hit)));
}

#[test]
fn judged_notes_are_skipped() {
    let notes = [
        (HitStatus::Hit, Some(20.0)),
        (HitStatus::Miss, Some(20.0)),
        (HitStatus::Pending, Some(20.3)),
    ];
    assert_eq!(judge(&notes), Some((2, Judgement::Hit)));
}

#[test]
fn ties_go_to_the_first() {
    let notes = [(HitStatus::Pending, Some(20.25)), (HitStatus::Pending, Some(19.75))];
    assert_eq!(judge(&notes), Some((0, Judgement::Hit)));
}

#[test]
fn too_far_is_no_attempt() {
    let notes = [(HitStatus::Pending, Some(21.0)), (HitStatus::Pending, Some(10.0))];
    assert_eq!(judge(&notes), None);
    // the nearest note decides, even where it is too far
    let notes = [(HitStatus::Pending, Some(20.6)), (HitStatus::Hit, Some(20.1))];
    assert_eq!(judge(&notes), None);
}

#[test]
fn exactly_at_the_window_is_an_attempt() {
    assert_eq!(judge(&[(HitStatus::Pending, Some(20.5))]), Some((0, Judgement::Hit)));
    assert_eq!(judge(&[(HitStatus::Pending, Some(19.5))]), Some((0, Judgement::Hit)));
}

#[test]
fn notes_without_position_or_with_nan_are_skipped() {
    let notes = [
        (HitStatus::Pending, None),
        (HitStatus::Pending, Some(f32::NAN)),
        (HitStatus::Pending, Some(f32::INFINITY)),
        (HitStatus::Pending, Some(20.2)),
    ];
    assert_eq!(judge(&notes), Some((3, Judgement::Hit)));
    assert_eq!(judge(&notes[..3]), None);
}

#[test]
fn judged_status_follows_the_judgement() {
    assert_eq!(judged_status(Judgement::Hit), HitStatus::Hit);
    assert_eq!(judged_status(Judgement::TooEarly), HitStatus::Miss);
    assert_eq!(judged_status(Judgement::TooLate), HitStatus::Miss);
}

#[test]
fn law_judged_note_is_not_judged_again() {
    let mut probes = vec![
        probe(HitStatus::Pending, Some(20.1)),
        probe(HitStatus::Pending, Some(20.3)),
    ];
    let (i, j) = judge_click(&probes).unwrap();
    assert_eq!(i, 0);
    probes[i].status = judged_status(j);
    let (k, _) = judge_click(&probes).unwrap();
    assert_eq!(k, 1);
    probes[k].status = HitStatus::Hit;
    assert_eq!(judge_click(&probes), None);
}

#[test]
fn law_every_judgement_is_a_hit_and_agrees_with_floats() {
    let mut seed: u32 = 7;
    let mut next = || {
        seed = seed.wrapping_mul(1_664_525).wrapping_add(1_013_904_223);
        seed
    };
    for _ in 0..2000 {
        let count = (next() % 6) as usize;
        let mut notes = Vec::new();
        for _ in 0..count {
            let status = match next() % 4 {
                0 => HitStatus::Hit,
                1 => HitStatus::Miss,
                _ => HitStatus::Pending,
            };
            let left = match next() % 10 {
                0 => None,
                1 => Some(f32::NAN),
                _ => Some(19.0 + (next() % 2000) as f32 / 1000.0),
            };
            notes.push((status, left));
        }
        let r = judge(&notes);
        assert_eq!(r, float_judge(&notes), "notes {:?}", notes);
        if let Some((_, j)) = r {
            assert_eq!(j, Judgement::Hit);
        }
    }
}
