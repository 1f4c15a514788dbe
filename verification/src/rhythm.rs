//! The judging of a click against the notes of the rhythm bar.
//!
//! Notes scroll from the right edge of the screen towards a target line. When the player
//! clicks, the pending note nearest to the line is looked for; if it is close enough to count
//! as an attempt, it is judged and leaves the pending notes.
//!
//! A note's distance to the line is a non-negative `f32`. The judging only compares such
//! distances with each other and with fixed bounds, and for non-negative `f32` values (NaN
//! aside) the IEEE-754 bit patterns, read as unsigned integers, are ordered as the values
//! are. So a note is handed over with the bit pattern of its distance, and the bounds are
//! bit patterns too; a NaN distance has a pattern above that of `f32::MAX` and is never
//! nearer than anything, as a NaN compares with nothing.
use vstd::prelude::*;

verus! {

/// Whether a note still waits to be judged.
#[derive(Clone, Copy, Debug, PartialEq, Eq, Structural)]
pub enum HitStatus {
    Pending,
    Hit,
    Miss,
}

/// What a judged click made of its note.
#[derive(Clone, Copy, Debug, PartialEq, Eq, Structural)]
pub enum Judgement {
    /// The note was within the hit window of the line.
    Hit,
    /// The note had not reached the hit window yet.
    TooEarly,
    /// The note had passed the hit window.
    TooLate,
}

/// What the judging needs to know of a note.
#[derive(Clone, Copy, Debug, PartialEq, Eq, Structural)]
pub struct NoteProbe {
    /// Whether the note was judged already.
    pub status: HitStatus,
    /// The bit pattern (`f32::to_bits`) of the note's distance to the target line, where the
    /// note's position is given in percent of the screen; `None` where it is not.
    pub distance_bits: Option<u32>,
    /// Whether the note is still to the right of the line.
    pub ahead: bool,
}

/// The bit pattern of `0.5_f32`: a note at most this far from the line counts as an attempt.
pub const ATTEMPT_WINDOW_BITS: u32 = 0x3f00_0000;

/// The bit pattern of `5.0_f32`: a note at most this far from the line is hit.
pub const HIT_WINDOW_BITS: u32 = 0x40a0_0000;

/// The bit pattern of `f32::MAX`: a note must be nearer than this to be considered at all.
pub const FAR_BITS: u32 = 0x7f7f_ffff;

/// A note that a click may judge: pending, with a position in percent, and nearer than
/// `f32::MAX` to the line.
pub open spec fn is_candidate(note: NoteProbe) -> bool {
    &&& note.status == HitStatus::Pending
    &&& note.distance_bits matches Some(d) && d < FAR_BITS
}

/// The distance of a note that has one.
pub open spec fn distance(note: NoteProbe) -> u32 {
    note.distance_bits.unwrap()
}

/// `notes[i]` is the nearest candidate, and the first among those as near.
pub open spec fn is_nearest(notes: Seq<NoteProbe>, i: int) -> bool {
    &&& 0 <= i < notes.len()
    &&& is_candidate(notes[i])
    &&& forall|j: int|
        0 <= j < notes.len() && is_candidate(#[trigger] notes[j]) ==> distance(notes[i])
            <= distance(notes[j])
    &&& forall|j: int|
        0 <= j < i && is_candidate(#[trigger] notes[j]) ==> distance(notes[i]) < distance(
            notes[j],
        )
}

/// The judgement of a note at the distance `distance` that counted as an attempt.
pub open spec fn judgement_for(distance: u32, ahead: bool) -> Judgement {
    if distance <= HIT_WINDOW_BITS {
        Judgement::Hit
    } else if ahead {
        Judgement::TooEarly
    } else {
        Judgement::TooLate
    }
}

/// The status a note takes when judged.
pub open spec fn status_for(judgement: Judgement) -> HitStatus {
    match judgement {
        Judgement::Hit => HitStatus::Hit,
        _ => HitStatus::Miss,
    }
}

/// `result` is what a click on `notes` gives: no judgement where no candidate is within the
/// attempt window, else the nearest candidate with its judgement.
pub open spec fn is_click_result(notes: Seq<NoteProbe>, result: Option<(usize, Judgement)>) -> bool {
    match result {
        None => forall|i: int|
            0 <= i < notes.len() && is_candidate(#[trigger] notes[i]) ==> distance(notes[i])
                > ATTEMPT_WINDOW_BITS,
        Some((i, judgement)) => {
            &&& is_nearest(notes, i as int)
            &&& distance(notes[i as int]) <= ATTEMPT_WINDOW_BITS
            &&& judgement == judgement_for(distance(notes[i as int]), notes[i as int].ahead)
        },
    }
}

/// The notes after the note `i` was judged `judgement`.
pub open spec fn after_judgement(notes: Seq<NoteProbe>, i: int, judgement: Judgement) -> Seq<
    NoteProbe,
> {
    notes.update(i, NoteProbe { status: status_for(judgement), ..notes[i] })
}

/// The status a note takes when judged `judgement`.
pub fn judged_status(judgement: Judgement) -> (r: HitStatus)
    ensures
        r == status_for(judgement),
{
    match judgement {
        Judgement::Hit => HitStatus::Hit,
        _ => HitStatus::Miss,
    }
}

/// Judges a click: the index of the note it judges and the judgement, or `None` where it
/// judges none.
pub fn judge_click(notes: &Vec<NoteProbe>) -> (r: Option<(usize, Judgement)>)
    ensures
        is_click_result(notes@, r),
{
    let mut best: Option<usize> = None;
    let mut best_distance: u32 = FAR_BITS;
    let n = notes.len();
    let mut i: usize = 0;
    while i < n
        invariant
            n == notes.len(),
            i <= n,
            match best {
                None => best_distance == FAR_BITS && forall|j: int|
                    0 <= j < i ==> !is_candidate(#[trigger] notes@[j]),
                Some(b) => {
                    &&& b < i
                    &&& is_candidate(notes@[b as int])
                    &&& distance(notes@[b as int]) == best_distance
                    &&& forall|j: int|
                        0 <= j < i && is_candidate(#[trigger] notes@[j]) ==> best_distance
                            <= distance(notes@[j])
                    &&& forall|j: int|
                        0 <= j < b && is_candidate(#[trigger] notes@[j]) ==> best_distance
                            < distance(notes@[j])
                },
            },
        decreases n - i,
    {
        let note = notes[i];
        if note.status == HitStatus::Pending {
            if let Some(d) = note.distance_bits {
                if d < best_distance {
                    best = Some(i);
                    best_distance = d;
                }
            }
        }
        i = i + 1;
    }
    match best {
        None => None,
        Some(b) => {
            if best_distance <= ATTEMPT_WINDOW_BITS {
                let judgement = if best_distance <= HIT_WINDOW_BITS {
                    Judgement::Hit
                } else if notes[b].ahead {
                    Judgement::TooEarly
                } else {
                    Judgement::TooLate
                };
                Some((b, judgement))
            } else {
                None
            }
        },
    }
}

/// Law: a click on given notes has one result; the judging depends on nothing else.
pub proof fn lemma_click_result_unique(
    notes: Seq<NoteProbe>,
    r1: Option<(usize, Judgement)>,
    r2: Option<(usize, Judgement)>,
)
    requires
        is_click_result(notes, r1),
        is_click_result(notes, r2),
    ensures
        r1 == r2,
{
    match (r1, r2) {
        (Some((i1, _)), Some((i2, _))) => {
            if i1 < i2 {
                assert(is_candidate(notes[i1 as int]));
            } else if i2 < i1 {
                assert(is_candidate(notes[i2 as int]));
            }
        },
        (Some((i1, _)), None) => {
            assert(is_candidate(notes[i1 as int]));
        },
        (None, Some((i2, _))) => {
            assert(is_candidate(notes[i2 as int]));
        },
        (None, None) => {},
    }
}

/// Law: every judged click is a hit, since the attempt window lies inside the hit window.
pub proof fn lemma_every_judgement_is_a_hit(notes: Seq<NoteProbe>, i: usize, judgement: Judgement)
    requires
        is_click_result(notes, Some((i, judgement))),
    ensures
        judgement == Judgement::Hit,
        status_for(judgement) == HitStatus::Hit,
{
}

/// Law: a note is judged at most once: once a click judged it, no later click judges it
/// again.
pub proof fn lemma_judged_note_leaves_the_pending(
    notes: Seq<NoteProbe>,
    i: usize,
    judgement: Judgement,
    later: Option<(usize, Judgement)>,
)
    requires
        is_click_result(notes, Some((i, judgement))),
        is_click_result(after_judgement(notes, i as int, judgement), later),
    ensures
        !(later matches Some((k, _)) && k == i),
{
    let updated = after_judgement(notes, i as int, judgement);
    assert(!is_candidate(updated[i as int]));
}

/// Law: without a candidate within the attempt window, in particular without a pending note,
/// a click judges nothing.
pub proof fn lemma_no_pending_no_judgement(notes: Seq<NoteProbe>, r: Option<(usize, Judgement)>)
    requires
        is_click_result(notes, r),
        forall|i: int| 0 <= i < notes.len() ==> notes[i].status != HitStatus::Pending,
    ensures
        r is None,
{
    if let Some((i, _)) = r {
        assert(is_candidate(notes[i as int]));
    }
}

/// Law: a judged note is pending, has a position, is at most `0.5` from the line, and no
/// other pending note with a position is nearer; of notes as near, it is the first.
pub proof fn lemma_click_picks_the_nearest(
    notes: Seq<NoteProbe>,
    i: usize,
    judgement: Judgement,
    k: int,
    dk: u32,
)
    requires
        is_click_result(notes, Some((i, judgement))),
    ensures
        i < notes.len(),
        notes[i as int].status == HitStatus::Pending,
        notes[i as int].distance_bits matches Some(d) && d <= 0x3f00_0000,
        (0 <= k < notes.len() && notes[k].status == HitStatus::Pending && notes[k].distance_bits
            == Some(dk) && dk < 0x7f7f_ffff) ==> notes[i as int].distance_bits.unwrap() <= dk
            && (k < i ==> notes[i as int].distance_bits.unwrap() < dk),
{
    if 0 <= k < notes.len() && notes[k].status == HitStatus::Pending && notes[k].distance_bits
        == Some(dk) && dk < 0x7f7f_ffff {
        assert(is_candidate(notes[k]));
    }
}

/// Law: a click judges nothing only where no pending note with a position is within `0.5` of
/// the line.
pub proof fn lemma_click_misses_only_far_notes(notes: Seq<NoteProbe>, k: int, dk: u32)
    requires
        is_click_result(notes, None),
        0 <= k < notes.len(),
        notes[k].status == HitStatus::Pending,
        notes[k].distance_bits == Some(dk),
    ensures
        dk > 0x3f00_0000,
{
    if dk < FAR_BITS {
        assert(is_candidate(notes[k]));
    }
}

} // verus!
