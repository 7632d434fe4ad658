//! Rebuilding one day from its row of hourly cells: a lesson that goes on in
//! the next hour is merged into the one already recorded.
use vstd::prelude::*;
use crate::lesson::{continues, prolonged, Lesson, LessonView};
use crate::slot::{slot_lessons, texts, views};
use crate::timetable::{Day, TimeTable, TimetableError, FIRST_HOUR};

verus! {

/// The fragments of each cell of a row.
pub open spec fn row_texts(slots: Seq<Vec<&str>>) -> Seq<Seq<Seq<char>>> {
    slots.map_values(|slot: Vec<&str>| texts(slot@))
}

/// Every cell of the row splits into lessons.
pub open spec fn row_is_well_formed(row: Seq<Seq<Seq<char>>>) -> bool {
    forall|i: int| 0 <= i < row.len() ==> (#[trigger] slot_lessons(row[i], i)) is Some
}

/// The lessons of each cell of a row (none for a cell that does not split).
pub open spec fn row_cells(row: Seq<Seq<Seq<char>>>) -> Seq<Seq<LessonView>> {
    Seq::new(
        row.len(),
        |i: int|
            match slot_lessons(row[i], i) {
                Some(ls) => ls,
                None => Seq::empty(),
            },
    )
}

/// Where the lookback window starts in a day of `len` lessons, for a cell of
/// `count` lessons after a cell of `prev` lessons: `count + prev - 1` back,
/// and no further than the first lesson.
pub open spec fn window_start(len: int, count: int, prev: int) -> int {
    if len >= count + prev - 1 {
        len - (count + prev - 1)
    } else {
        0
    }
}

/// The first index at or after `i` of a lesson that `c` continues, or the
/// length of the day when there is none.
pub open spec fn find_from(day: Seq<LessonView>, i: int, c: LessonView) -> int
    decreases day.len() - i,
{
    if i < 0 || i >= day.len() {
        day.len() as int
    } else if continues(c, day[i]) {
        i
    } else {
        find_from(day, i + 1, c)
    }
}

/// The day after `c` is placed with the window starting at `lo`: the first
/// lesson in the window that `c` continues is prolonged by an hour, and when
/// there is none `c` is appended.
pub open spec fn place(day: Seq<LessonView>, c: LessonView, lo: int) -> Seq<LessonView> {
    let j = find_from(day, lo, c);
    if j < day.len() {
        day.update(j, prolonged(day[j]))
    } else {
        day.push(c)
    }
}

/// The day after the first `n` lessons of a cell are placed, one by one; the
/// window is taken anew for each of them.
pub open spec fn place_first(
    day: Seq<LessonView>,
    cell: Seq<LessonView>,
    n: int,
    prev: int,
) -> Seq<LessonView>
    decreases n,
{
    if n <= 0 {
        day
    } else {
        let d = place_first(day, cell, n - 1, prev);
        place(d, cell[n - 1], window_start(d.len() as int, cell.len() as int, prev))
    }
}

/// How many lessons the cell before cell `i` held (none before the first).
pub open spec fn prev_count(cells: Seq<Seq<LessonView>>, i: int) -> int {
    if i >= 1 {
        cells[i - 1].len() as int
    } else {
        0
    }
}

/// The day after its first `n` cells are placed, left to right.
pub open spec fn reconstruct_upto(cells: Seq<Seq<LessonView>>, n: int) -> Seq<LessonView>
    decreases n,
{
    if n <= 0 {
        Seq::empty()
    } else {
        place_first(
            reconstruct_upto(cells, n - 1),
            cells[n - 1],
            cells[n - 1].len() as int,
            prev_count(cells, n - 1),
        )
    }
}

/// The day that a row of cells makes.
pub open spec fn reconstruct(cells: Seq<Seq<LessonView>>) -> Seq<LessonView> {
    reconstruct_upto(cells, cells.len() as int)
}

/// A first cell of one lesson makes a day of that one lesson.
proof fn lemma_first_cell_single(cells: Seq<Seq<LessonView>>, a: LessonView)
    requires
        cells.len() >= 1,
        cells[0] == seq![a],
    ensures
        reconstruct_upto(cells, 1) == seq![a],
{
    let empty = Seq::<LessonView>::empty();
    assert(reconstruct_upto(cells, 0) == empty);
    assert(place_first(empty, cells[0], 0, 0) == empty);
    assert(find_from(empty, 0, a) == 0);
    assert(place(empty, a, 0) =~= seq![a]);
    assert(prev_count(cells, 0) == 0);
}

/// The lessons are in the order in which they begin.
pub open spec fn is_chronological(day: Seq<LessonView>) -> bool {
    forall|i: int, j: int| 0 <= i < j < day.len() ==> #[trigger] day[i].start <= #[trigger] day[j].start
}

/// No lesson begins after hour `h`.
pub open spec fn starts_by(day: Seq<LessonView>, h: int) -> bool {
    forall|i: int| 0 <= i < day.len() ==> #[trigger] day[i].start <= h
}

/// Every lesson lasts at least an hour.
pub open spec fn lengths_positive(day: Seq<LessonView>) -> bool {
    forall|i: int| 0 <= i < day.len() ==> #[trigger] day[i].length >= 1
}

/// Prolonging a lesson, or appending one that begins last, keeps the day in order.
proof fn lemma_place_keeps_order(d: Seq<LessonView>, c: LessonView, target: int, h: int)
    requires
        is_chronological(d),
        starts_by(d, h),
        lengths_positive(d),
        c.start == h,
        c.length >= 1,
    ensures
        0 <= target < d.len() ==> ({
            let e = d.update(target, prolonged(d[target]));
            is_chronological(e) && starts_by(e, h) && lengths_positive(e)
        }),
        ({
            let e = d.push(c);
            is_chronological(e) && starts_by(e, h) && lengths_positive(e)
        }),
{
    let e = d.push(c);
    assert forall|i: int, j: int| 0 <= i < j < e.len() implies #[trigger] e[i].start <= #[trigger] e[j].start by {
        if j == d.len() {
            assert(d[i].start <= h);
        } else {
            assert(d[i].start <= d[j].start);
        }
    }
    if 0 <= target < d.len() {
        let u = d.update(target, prolonged(d[target]));
        assert forall|i: int, j: int| 0 <= i < j < u.len() implies #[trigger] u[i].start <= #[trigger] u[j].start by {
            assert(d[i].start <= d[j].start);
        }
        assert forall|i: int| 0 <= i < u.len() implies #[trigger] u[i].start <= h by {
            assert(d[i].start <= h);
        }
        assert forall|i: int| 0 <= i < u.len() implies #[trigger] u[i].length >= 1 by {
            assert(d[i].length >= 1);
        }
    }
}

/// The hours that the lessons of a day take together.
pub open spec fn total_hours(day: Seq<LessonView>) -> int
    decreases day.len(),
{
    if day.len() == 0 {
        0
    } else {
        total_hours(day.drop_last()) + day.last().length
    }
}

/// The lessons that the first `n` cells of a row hold together.
pub open spec fn total_lessons(cells: Seq<Seq<LessonView>>, n: int) -> int
    decreases n,
{
    if n <= 0 {
        0
    } else {
        total_lessons(cells, n - 1) + cells[n - 1].len()
    }
}

proof fn lemma_total_hours_prolong(d: Seq<LessonView>, j: int)
    requires
        0 <= j < d.len(),
    ensures
        total_hours(d.update(j, prolonged(d[j]))) == total_hours(d) + 1,
    decreases d.len(),
{
    let u = d.update(j, prolonged(d[j]));
    if j == d.len() - 1 {
        assert(u.drop_last() =~= d.drop_last());
    } else {
        lemma_total_hours_prolong(d.drop_last(), j);
        assert(u.drop_last() =~= d.drop_last().update(j, prolonged(d[j])));
    }
}

proof fn lemma_find_from(day: Seq<LessonView>, i: int, c: LessonView)
    requires
        0 <= i,
    ensures
        find_from(day, i, c) <= day.len(),
        find_from(day, i, c) < day.len() ==> i <= find_from(day, i, c) && continues(
            c,
            day[find_from(day, i, c)],
        ),
    decreases day.len() - i,
{
    if i < day.len() && !continues(c, day[i]) {
        lemma_find_from(day, i + 1, c);
    }
}

/// Placing a lesson leaves every recorded lesson as it was, but for one that
/// the placed lesson continues, which may be prolonged; it never shortens the day.
proof fn lemma_place_frame(day: Seq<LessonView>, c: LessonView, lo: int)
    requires
        0 <= lo,
    ensures
        place(day, c, lo).len() >= day.len(),
        forall|i: int|
            0 <= i < day.len() && !continues(c, day[i]) ==> #[trigger] place(day, c, lo)[i] == day[i],
        forall|i: int|
            0 <= i < day.len() ==> #[trigger] place(day, c, lo)[i] == day[i] || place(day, c, lo)[i]
                == prolonged(day[i]),
{
    lemma_find_from(day, lo, c);
}

/// A lesson in the next hour that has the name and the format of the one
/// before is merged into it: the day holds one lesson of two hours.
pub proof fn lemma_adjacent_hours_merge(a: LessonView, b: LessonView)
    requires
        a.length == 1,
        b.length == 1,
        b.name == a.name,
        b.format == a.format,
        b.start == a.start + 1,
    ensures
        reconstruct(seq![seq![a], seq![b]]) == seq![LessonView { length: 2, ..a }],
{
    let cells = seq![seq![a], seq![b]];
    lemma_first_cell_single(cells, a);
    assert(find_from(seq![a], 0, b) == 0);
    assert(cells[1] == seq![b]);
    assert(prev_count(cells, 1) == 1);
    assert(place_first(seq![a], cells[1], 0, 1) == seq![a]);
    assert(place(seq![a], b, 0) =~= seq![LessonView { length: 2, ..a }]);
    assert(reconstruct_upto(cells, 2) == place_first(seq![a], cells[1], 1, 1));
}

/// A lesson of the next cell that does not start when the earlier one ends
/// is not merged into it, whatever its name and format: the day holds both.
pub proof fn lemma_non_contiguous_lessons_stay_apart(a: LessonView, b: LessonView)
    requires
        b.start != a.start + a.length,
    ensures
        reconstruct(seq![seq![a], seq![b]]) == seq![a, b],
{
    let cells = seq![seq![a], seq![b]];
    lemma_first_cell_single(cells, a);
    assert(find_from(seq![a], 0, b) == 1) by {
        assert(find_from(seq![a], 1, b) == 1);
    }
    assert(cells[1] == seq![b]);
    assert(prev_count(cells, 1) == 1);
    assert(place_first(seq![a], cells[1], 0, 1) == seq![a]);
    assert(place(seq![a], b, 0) =~= seq![a, b]);
    assert(reconstruct_upto(cells, 2) == place_first(seq![a], cells[1], 1, 1));
}

/// `x` has the name and the format of `y`.
pub open spec fn same_kind(x: LessonView, y: LessonView) -> bool {
    x.name == y.name && x.format == y.format
}

/// Two lessons in one hour, then one, then two: the middle lesson prolongs
/// the one of the first two that has its name and format, and the other is
/// left as it was. (The lessons of the last cell start an hour later still,
/// so they cannot continue it either.) When the last cell's lessons share
/// name and format with neither lesson of the first cell, they are appended
/// as they are.
pub proof fn lemma_stacking_change(
    a1: LessonView,
    a2: LessonView,
    m: LessonView,
    c1: LessonView,
    c2: LessonView,
)
    requires
        a1.start == a2.start,
        a1.length == 1,
        a2.length == 1,
        m.start == a1.start + 1,
        m.length == 1,
        c1.start == a1.start + 2,
        c2.start == a1.start + 2,
        (m.name == a1.name && m.format == a1.format) != (m.name == a2.name && m.format == a2.format),
    ensures
        ({
            let day = reconstruct(seq![seq![a1, a2], seq![m], seq![c1, c2]]);
            let k: int = if m.name == a1.name && m.format == a1.format { 0 } else { 1 };
            let other: int = 1 - k;
            let first = seq![a1, a2];
            &&& day.len() >= 2
            &&& day[other] == first[other]
            &&& day[k].name == first[k].name
            &&& day[k].format == first[k].format
            &&& day[k].start == first[k].start
            &&& day[k].length >= 2
        }),
        c1.length == 1 && c2.length == 1 && !same_kind(c1, a1) && !same_kind(c1, a2) && !same_kind(
            c2,
            a1,
        ) && !same_kind(c2, a2) ==> ({
            let day = reconstruct(seq![seq![a1, a2], seq![m], seq![c1, c2]]);
            let first = seq![a1, a2];
            let k: int = if m.name == a1.name && m.format == a1.format { 0 } else { 1 };
            day == first.update(k, prolonged(first[k])).push(c1).push(c2)
        }),
{
    let cells = seq![seq![a1, a2], seq![m], seq![c1, c2]];
    let first = seq![a1, a2];
    let k: int = if m.name == a1.name && m.format == a1.format { 0 } else { 1 };
    let other: int = 1 - k;
    let empty = Seq::<LessonView>::empty();
    assert(cells[0] == first);
    assert(reconstruct_upto(cells, 0) == empty);
    assert(place_first(empty, first, 0, 0) == empty);
    assert(find_from(empty, 0, a1) == 0);
    assert(place(empty, a1, 0) =~= seq![a1]);
    assert(place_first(empty, first, 1, 0) == seq![a1]);
    assert(find_from(seq![a1], 0, a2) == 1) by {
        assert(find_from(seq![a1], 1, a2) == 1);
    }
    assert(place(seq![a1], a2, 0) =~= first);
    assert(place_first(empty, first, 2, 0) == first);
    assert(reconstruct_upto(cells, 1) == first);
    assert(cells[1] == seq![m]);
    assert(prev_count(cells, 1) == 2);
    assert(place_first(first, cells[1], 0, 2) == first);
    let after_m = first.update(k, prolonged(first[k]));
    if k == 0 {
        assert(find_from(first, 0, m) == 0);
    } else {
        assert(find_from(first, 0, m) == 1) by {
            assert(find_from(first, 1, m) == 1);
        }
    }
    assert(reconstruct_upto(cells, 2) =~= after_m);
    let lo1 = window_start(2, 2, 1);
    lemma_place_frame(after_m, c1, lo1);
    let d1 = place(after_m, c1, lo1);
    assert(!continues(c1, after_m[other]));
    assert(d1[other] == first[other]);
    let lo2 = window_start(d1.len() as int, 2, 1);
    lemma_place_frame(d1, c2, lo2);
    let d2 = place(d1, c2, lo2);
    assert(!continues(c2, d1[other]));
    assert(cells[2] == seq![c1, c2]);
    assert(prev_count(cells, 2) == 1);
    assert(place_first(after_m, cells[2], 0, 1) == after_m);
    assert(place_first(after_m, cells[2], 1, 1) == d1);
    assert(place_first(after_m, cells[2], 2, 1) == d2);
    assert(reconstruct_upto(cells, 3) == d2);
    assert(d2[other] == first[other]);
    assert(d1[k] == after_m[k] || d1[k] == prolonged(after_m[k]));
    assert(d2[k] == d1[k] || d2[k] == prolonged(d1[k]));
    if c1.length == 1 && c2.length == 1 && !same_kind(c1, a1) && !same_kind(c1, a2) && !same_kind(
        c2,
        a1,
    ) && !same_kind(c2, a2) {
        assert(!continues(c1, after_m[0]) && !continues(c1, after_m[1]));
        lemma_find_from(after_m, lo1, c1);
        assert(d1 == after_m.push(c1));
        assert(!continues(c2, d1[0]) && !continues(c2, d1[1]) && !continues(c2, d1[2]));
        lemma_find_from(d1, lo2, c2);
        assert(d2 == d1.push(c2));
    }
}

impl TimeTable {
    /// The lessons of one day, from its cells in hourly order.
    ///
    /// Each lesson of a cell is compared with the lessons recorded last (as
    /// many as this cell and the previous one hold together, less one): the
    /// first that it continues is prolonged by an hour; when there is none
    /// the lesson is appended. A malformed cell fails the whole day.
    pub fn get_day_lessons(slots: Vec<Vec<&str>>) -> (r: Result<Day, TimetableError>)
        requires
            slots@.len() + FIRST_HOUR <= u64::MAX,
        ensures
            row_is_well_formed(row_texts(slots@)) ==> (r matches Ok(d) && views(d@) == reconstruct(
                row_cells(row_texts(slots@)),
            )),
            r matches Ok(d) ==> is_chronological(views(d@)) && lengths_positive(views(d@)),
            r matches Ok(d) ==> total_hours(views(d@)) == total_lessons(
                row_cells(row_texts(slots@)),
                slots@.len() as int,
            ),
            !row_is_well_formed(row_texts(slots@)) ==> r == Err::<Day, TimetableError>(
                TimetableError::MalformedCell,
            ),
    {
        let ghost row = row_texts(slots@);
        let ghost cells = row_cells(row);
        let total = slots.len();
        let mut rest = slots;
        let mut day: Vec<Lesson> = Vec::new();
        let mut last_slot_lessons: usize = 0;
        let mut offset: usize = 0;
        while offset < total
            invariant
                row == row_texts(slots@),
                total == row.len(),
                total + FIRST_HOUR <= u64::MAX,
                offset <= total,
                cells == row_cells(row),
                rest@.len() == total - offset,
                row_texts(rest@) == row.subrange(offset as int, total as int),
                forall|i: int| 0 <= i < offset ==> (#[trigger] slot_lessons(row[i], i)) is Some,
                views(day@) == reconstruct_upto(cells, offset as int),
                total_hours(views(day@)) == total_lessons(cells, offset as int),
                is_chronological(views(day@)),
                starts_by(views(day@), FIRST_HOUR + offset),
                lengths_positive(views(day@)),
                last_slot_lessons == prev_count(cells, offset as int),
            decreases total - offset,
        {
            let ghost before = rest@;
            let slot = rest.remove(0);
            assert(texts(slot@) == row[offset as int]) by {
                assert(row_texts(before)[0] == row.subrange(offset as int, total as int)[0]);
            }
            assert(row_texts(rest@) =~= row.subrange(offset + 1, total as int)) by {
                assert forall|k: int| 0 <= k < rest@.len() implies row_texts(rest@)[k]
                    == row.subrange(offset + 1, total as int)[k] by {
                    assert(rest@[k] == before[k + 1]);
                    assert(row_texts(before)[k + 1] == row.subrange(offset as int, total as int)[k + 1]);
                }
            }
            let lessons = match TimeTable::process_slot(slot, offset) {
                Ok(lessons) => lessons,
                Err(e) => {
                    assert(!row_is_well_formed(row)) by {
                        assert(slot_lessons(row[offset as int], offset as int) is None);
                    }
                    return Err(e);
                },
            };
            let ghost cell = cells[offset as int];
            assert(views(lessons@) == cell);
            assert(forall|m: int| 0 <= m < cell.len() ==> #[trigger] cell[m].start == FIRST_HOUR + offset);
            assert(forall|m: int| 0 <= m < cell.len() ==> #[trigger] cell[m].length == 1);
            let number_of_lessons = lessons.len();
            let ghost start_day = views(day@);
            let mut queue = lessons;
            let mut j: usize = 0;
            while j < number_of_lessons
                invariant
                    number_of_lessons == cell.len(),
                    j <= number_of_lessons,
                    queue@.len() == number_of_lessons - j,
                    views(queue@) == cell.subrange(j as int, number_of_lessons as int),
                    views(day@) == place_first(start_day, cell, j as int, last_slot_lessons as int),
                    total_hours(views(day@)) == total_lessons(cells, offset as int) + j,
                    cell == cells[offset as int],
                    offset < cells.len(),
                    is_chronological(views(day@)),
                    starts_by(views(day@), FIRST_HOUR + offset),
                    lengths_positive(views(day@)),
                    forall|m: int| 0 <= m < cell.len() ==> #[trigger] cell[m].length == 1,
                    forall|m: int| 0 <= m < cell.len() ==> #[trigger] cell[m].start == FIRST_HOUR + offset,
                    offset < total,
                    total + FIRST_HOUR <= u64::MAX,
                decreases number_of_lessons - j,
            {
                let ghost queued = queue@;
                let lesson = queue.remove(0);
                assert(lesson@ == cell[j as int]) by {
                    assert(views(queued)[0] == cell.subrange(j as int, number_of_lessons as int)[0]);
                }
                assert(views(queue@) =~= cell.subrange(j + 1, number_of_lessons as int)) by {
                    assert forall|k: int| 0 <= k < queue@.len() implies views(queue@)[k]
                        == cell.subrange(j + 1, number_of_lessons as int)[k] by {
                        assert(queue@[k] == queued[k + 1]);
                        assert(views(queued)[k + 1] == cell.subrange(j as int, number_of_lessons as int)[k + 1]);
                    }
                }
                let ghost d = views(day@);
                let len = day.len();
                let reach = number_of_lessons - 1;
                let lo = if len >= reach && len - reach >= last_slot_lessons {
                    len - reach - last_slot_lessons
                } else {
                    0
                };
                assert(lo == window_start(d.len() as int, cell.len() as int, last_slot_lessons as int));
                let mut idx = lo;
                let mut found = false;
                let ghost target = find_from(d, lo as int, lesson@);
                while !found && idx < day.len()
                    invariant
                        lo <= idx <= len,
                        day@.len() == len,
                        d.len() == len,
                        target == find_from(d, lo as int, lesson@),
                        is_chronological(d),
                        starts_by(d, FIRST_HOUR + offset),
                        lengths_positive(d),
                        !found ==> views(day@) == d && target == find_from(d, idx as int, lesson@),
                        found ==> target < len && views(day@) == d.update(target, prolonged(d[target])),
                        lesson@.start == FIRST_HOUR + offset,
                        lesson@.length == 1,
                        offset < total,
                        total + FIRST_HOUR <= u64::MAX,
                    decreases len - idx + (if found { 0int } else { 1int }),
                {
                    if lesson.is_continuation(&day[idx]) {
                        assert(d[idx as int] == day@[idx as int]@);
                        day[idx].prolong();
                        assert(views(day@) =~= d.update(idx as int, prolonged(d[idx as int])));
                        found = true;
                    } else {
                        idx += 1;
                    }
                }
                proof {
                    lemma_find_from(d, lo as int, lesson@);
                    lemma_place_keeps_order(d, lesson@, target, FIRST_HOUR + offset);
                    if found {
                        lemma_total_hours_prolong(d, target);
                    }
                    assert(d.push(lesson@).drop_last() =~= d);
                }
                if !found {
                    day.push(lesson);
                    assert(views(day@) =~= d.push(lesson@));
                }
                j += 1;
            }
            assert(cell.subrange(number_of_lessons as int, number_of_lessons as int).len() == 0);
            last_slot_lessons = number_of_lessons;
            offset += 1;
            assert(starts_by(views(day@), FIRST_HOUR + offset)) by {
                assert forall|i: int| 0 <= i < views(day@).len() implies #[trigger] views(day@)[i].start
                    <= FIRST_HOUR + offset by {
                    assert(views(day@)[i].start <= FIRST_HOUR + offset - 1);
                }
            }
        }
        assert(row_is_well_formed(row));
        Ok(day)
    }
}

} // verus!
