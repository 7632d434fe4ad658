//! Splitting one cell of the grid (one hourly slot) into lessons.
use vstd::prelude::*;
use crate::fragment::{has_group_tag, names_other_group};
use crate::lesson::{lesson_from, Lesson, LessonView};
use crate::text::{chars_of, trim_of, trim_text};
use crate::timetable::{TimeTable, TimetableError, FIRST_HOUR};

verus! {

/// The characters of each fragment.
pub open spec fn texts(slot: Seq<&str>) -> Seq<Seq<char>> {
    slot.map_values(|f: &str| f@)
}

/// The lessons of a day as mathematical values.
pub open spec fn views(lessons: Seq<Lesson>) -> Seq<LessonView> {
    lessons.map_values(|l: Lesson| l@)
}

/// A fragment that carries lesson data: not blank, and naming no other group.
pub open spec fn is_content(f: Seq<char>) -> bool {
    !(trim_of(f).len() == 0 || has_group_tag(f))
}

/// The fragments of a cell that carry lesson data, in order.
pub open spec fn content(frags: Seq<Seq<char>>) -> Seq<Seq<char>> {
    frags.filter(|f: Seq<char>| is_content(f))
}

/// The location given to the one lesson whose cell holds no room.
pub open spec fn missing_location() -> Seq<char> {
    "blockchain"@
}

/// The content fragments, with a location put in front when there are two.
pub open spec fn completed(frags: Seq<Seq<char>>) -> Seq<Seq<char>> {
    if content(frags).len() == 2 {
        seq![missing_location()] + content(frags)
    } else {
        content(frags)
    }
}

/// The lessons that a cell at `offset` hours from the first column holds:
/// one per triple (location, label, tutor) of its completed fragments, or
/// none when they do not fall into triples.
pub open spec fn slot_lessons(frags: Seq<Seq<char>>, offset: int) -> Option<Seq<LessonView>> {
    let data = completed(frags);
    if data.len() % 3 != 0 {
        None
    } else {
        Some(
            Seq::new(
                data.len() / 3,
                |i: int| lesson_from(FIRST_HOUR + offset, data[3 * i], data[3 * i + 1], data[3 * i + 2]),
            ),
        )
    }
}

/// A cell left with two fragments gets the missing location and makes one
/// lesson of them.
pub proof fn lemma_two_fragments_make_one_lesson(frags: Seq<Seq<char>>, offset: int)
    requires
        content(frags).len() == 2,
    ensures
        slot_lessons(frags, offset) is Some,
        slot_lessons(frags, offset)->0 == seq![
            lesson_from(FIRST_HOUR + offset, missing_location(), content(frags)[0], content(frags)[1]),
        ],
{
    let data = completed(frags);
    assert(data.len() == 3);
    assert(data[0] == missing_location());
    assert(data[1] == content(frags)[0]);
    assert(data[2] == content(frags)[1]);
    assert(slot_lessons(frags, offset)->0 =~= seq![
        lesson_from(FIRST_HOUR + offset, missing_location(), content(frags)[0], content(frags)[1]),
    ]);
}

/// A cell whose content fragments do not fall into triples, and are not the
/// two that get a location, is malformed.
pub proof fn lemma_untripled_cell_is_malformed(frags: Seq<Seq<char>>, offset: int)
    requires
        content(frags).len() != 2,
        content(frags).len() % 3 != 0,
    ensures
        slot_lessons(frags, offset) is None,
{
}

proof fn lemma_triple_in_bounds(k: int, n: int)
    requires
        0 <= k < n / 3,
        n % 3 == 0,
    ensures
        3 * k + 2 < n,
{
}

/// Whether a fragment carries lesson data.
fn is_content_fragment(f: &str) -> (r: bool)
    ensures
        r == is_content(f@),
{
    if chars_of(trim_text(f)).len() == 0 {
        return false;
    }
    !names_other_group(&chars_of(f))
}

impl TimeTable {
    /// The lessons of one cell, `offset` hours after the first column.
    ///
    /// Blank fragments and tags of other groups are dropped. When two
    /// fragments are left, the cell lacks a location and one is supplied.
    /// The rest must fall into triples (location, label, tutor), each of
    /// which makes a one-hour lesson; otherwise the cell is malformed.
    pub fn process_slot(slot: Vec<&str>, offset: usize) -> (r: Result<Vec<Lesson>, TimetableError>)
        requires
            offset + FIRST_HOUR <= u64::MAX,
        ensures
            match slot_lessons(texts(slot@), offset as int) {
                Some(ls) => r matches Ok(v) && views(v@) == ls,
                None => r == Err::<Vec<Lesson>, TimetableError>(TimetableError::MalformedCell),
            },
    {
        let ghost frags = texts(slot@);
        let mut data: Vec<&str> = Vec::new();
        let mut i: usize = 0;
        while i < slot.len()
            invariant
                i <= slot@.len(),
                frags == texts(slot@),
                texts(data@) == content(frags.subrange(0, i as int)),
            decreases slot.len() - i,
        {
            let f = slot[i];
            proof {
                reveal(Seq::filter);
                assert(frags.subrange(0, i + 1).drop_last() =~= frags.subrange(0, i as int));
                assert(frags.subrange(0, i + 1).last() == f@);
            }
            if is_content_fragment(f) {
                data.push(f);
                assert(texts(data@) =~= content(frags.subrange(0, i as int)).push(f@));
            }
            i += 1;
        }
        assert(frags.subrange(0, slot@.len() as int) =~= frags);
        if data.len() == 2 {
            data.insert(0, "blockchain");
            assert(texts(data@) =~= seq![missing_location()] + content(frags));
        }
        assert(texts(data@) == completed(frags));
        if data.len() % 3 != 0 {
            return Err(TimetableError::MalformedCell);
        }
        let start = FIRST_HOUR + offset as u64;
        let ghost want = slot_lessons(frags, offset as int)->0;
        let mut lessons: Vec<Lesson> = Vec::new();
        let mut k: usize = 0;
        while k < data.len() / 3
            invariant
                data@.len() % 3 == 0,
                k <= data@.len() / 3,
                texts(data@) == completed(frags),
                start == FIRST_HOUR + offset,
                want == slot_lessons(frags, offset as int)->0,
                want.len() == data@.len() / 3,
                views(lessons@) == want.subrange(0, k as int),
                lessons@.len() == k,
            decreases data.len() / 3 - k,
        {
            proof {
                lemma_triple_in_bounds(k as int, data@.len() as int);
            }
            let at = 3 * k;
            let lesson = Lesson::new(start, data[at], data[at + 1], data[at + 2]);
            assert(texts(data@)[at as int] == data@[at as int]@);
            assert(texts(data@)[at + 1] == data@[at + 1]@);
            assert(texts(data@)[at + 2] == data@[at + 2]@);
            assert(lesson@ == want[k as int]);
            let ghost before = lessons@;
            let ghost made = lesson@;
            lessons.push(lesson);
            proof {
                assert(lessons@ == before.push(lesson));
                assert forall|j: int| 0 <= j < k + 1 implies views(lessons@)[j] == want[j] by {
                    if j < k {
                        assert(views(before)[j] == want.subrange(0, k as int)[j]);
                        assert(lessons@[j] == before[j]);
                    } else {
                        assert(lessons@[j]@ == made);
                    }
                }
            }
            k += 1;
            assert(views(lessons@) =~= want.subrange(0, k as int));
        }
        assert(want.subrange(0, want.len() as int) =~= want);
        Ok(lessons)
    }
}

} // verus!
