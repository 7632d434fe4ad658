//! A group's week: one day of lessons per weekday.
use vstd::prelude::*;
use crate::day::{reconstruct, row_cells, row_is_well_formed, row_texts};
use crate::lesson::{Lesson, LessonView};
use crate::slot::views;

verus! {

/// The hour at which the grid's first column begins.
pub const FIRST_HOUR: u64 = 9;

/// How many weekday rows the grid may have (Monday to Saturday).
pub const WEEKDAY_ROWS: usize = 6;

/// Why a timetable could not be built.
#[derive(Debug, Clone, Copy, PartialEq, Eq, Structural)]
pub enum TimetableError {
    /// A cell's fragments do not fall into triples (location, label, tutor).
    MalformedCell,
    /// The grid has more weekday rows than the week has days for.
    ProtocolError,
    /// The requested group is not in the table of group codes.
    LookupMiss,
}

/// The lessons of one day, in the order in which they begin.
pub type Day = Vec<Lesson>;

/// The timetable of one group: a day of lessons for each weekday. Sunday has
/// two slots, `sunday` and `another_sunday`, which stay empty.
#[derive(Debug, Clone, PartialEq, Eq)]
pub struct TimeTable {
    pub sunday: Day,
    pub monday: Day,
    pub tuesday: Day,
    pub wednesday: Day,
    pub thursday: Day,
    pub friday: Day,
    pub saturday: Day,
    pub another_sunday: Day,
}

/// The fragments of every cell of every row.
pub open spec fn grid_texts(grid: Seq<Vec<Vec<&str>>>) -> Seq<Seq<Seq<Seq<char>>>> {
    grid.map_values(|row: Vec<Vec<&str>>| row_texts(row@))
}

/// Every cell of every row splits into lessons.
pub open spec fn grid_is_well_formed(rows: Seq<Seq<Seq<Seq<char>>>>) -> bool {
    forall|i: int| 0 <= i < rows.len() ==> row_is_well_formed(#[trigger] rows[i])
}

/// The lessons of weekday `i` (Monday is 0): those that row `i` makes, or
/// none when the grid has no such row.
pub open spec fn weekday(rows: Seq<Seq<Seq<Seq<char>>>>, i: int) -> Seq<LessonView> {
    if 0 <= i < rows.len() {
        reconstruct(row_cells(rows[i]))
    } else {
        Seq::empty()
    }
}

impl TimeTable {
    /// The day of weekday `i` (Monday is 0, Saturday 5).
    pub open spec fn day_at(&self, i: int) -> Seq<LessonView> {
        if i == 0 {
            views(self.monday@)
        } else if i == 1 {
            views(self.tuesday@)
        } else if i == 2 {
            views(self.wednesday@)
        } else if i == 3 {
            views(self.thursday@)
        } else if i == 4 {
            views(self.friday@)
        } else {
            views(self.saturday@)
        }
    }

    /// Puts `day` in the slot of weekday `i` (Monday is 0).
    fn set_day(&mut self, i: usize, day: Day)
        requires
            i < WEEKDAY_ROWS,
        ensures
            final(self).day_at(i as int) == views(day@),
            forall|k: int| 0 <= k < WEEKDAY_ROWS && k != i ==> final(self).day_at(k) == old(self).day_at(k),
            final(self).sunday == old(self).sunday,
            final(self).another_sunday == old(self).another_sunday,
    {
        if i == 0 {
            self.monday = day;
        } else if i == 1 {
            self.tuesday = day;
        } else if i == 2 {
            self.wednesday = day;
        } else if i == 3 {
            self.thursday = day;
        } else if i == 4 {
            self.friday = day;
        } else {
            self.saturday = day;
        }
    }

    /// The week that a grid makes: row `i` (Monday first) becomes the day of
    /// weekday `i`, and both Sunday slots stay empty. A grid with more rows
    /// than Monday to Saturday fails, and so does one with a malformed cell.
    pub fn from_grid(grid: Vec<Vec<Vec<&str>>>) -> (r: Result<TimeTable, TimetableError>)
        requires
            forall|i: int| 0 <= i < grid@.len() ==> #[trigger] grid@[i]@.len() + FIRST_HOUR <= u64::MAX,
        ensures
            grid@.len() > WEEKDAY_ROWS ==> r == Err::<TimeTable, TimetableError>(
                TimetableError::ProtocolError,
            ),
            grid@.len() <= WEEKDAY_ROWS && !grid_is_well_formed(grid_texts(grid@)) ==> r == Err::<
                TimeTable,
                TimetableError,
            >(TimetableError::MalformedCell),
            grid@.len() <= WEEKDAY_ROWS && grid_is_well_formed(grid_texts(grid@)) ==> (r matches Ok(t)
                && t.sunday@.len() == 0 && t.another_sunday@.len() == 0 && forall|i: int|
                0 <= i < WEEKDAY_ROWS ==> #[trigger] t.day_at(i) == weekday(grid_texts(grid@), i)),
    {
        let ghost rows = grid_texts(grid@);
        if grid.len() > WEEKDAY_ROWS {
            return Err(TimetableError::ProtocolError);
        }
        let total = grid.len();
        let mut rest = grid;
        let mut timetable = TimeTable::new();
        let mut index: usize = 0;
        while index < total
            invariant
                rows == grid_texts(grid@),
                total == rows.len(),
                total <= WEEKDAY_ROWS,
                index <= total,
                rest@.len() == total - index,
                forall|k: int| 0 <= k < rest@.len() ==> #[trigger] rest@[k] == grid@[index + k],
                forall|k: int| 0 <= k < index ==> row_is_well_formed(#[trigger] rows[k]),
                forall|k: int| 0 <= k < index ==> #[trigger] timetable.day_at(k) == weekday(rows, k),
                forall|k: int| index <= k < WEEKDAY_ROWS ==> #[trigger] timetable.day_at(k).len() == 0,
                timetable.sunday@.len() == 0,
                timetable.another_sunday@.len() == 0,
                forall|i: int| 0 <= i < grid@.len() ==> #[trigger] grid@[i]@.len() + FIRST_HOUR <= u64::MAX,
            decreases total - index,
        {
            let ghost before = rest@;
            let row = rest.remove(0);
            assert(row == grid@[index as int]) by {
                assert(before[0] == grid@[index + 0]);
            }
            assert forall|k: int| 0 <= k < rest@.len() implies #[trigger] rest@[k] == grid@[index + 1 + k] by {
                assert(rest@[k] == before[k + 1]);
                assert(before[k + 1] == grid@[index + (k + 1)]);
            }
            assert(rows[index as int] == row_texts(row@));
            let day = match TimeTable::get_day_lessons(row) {
                Ok(day) => day,
                Err(e) => {
                    assert(!grid_is_well_formed(rows));
                    return Err(e);
                },
            };
            timetable.set_day(index, day);
            index += 1;
        }
        assert(grid_is_well_formed(rows));
        assert forall|i: int| 0 <= i < WEEKDAY_ROWS implies #[trigger] timetable.day_at(i) == weekday(rows, i) by {
            if i >= total {
                assert(timetable.day_at(i).len() == 0);
                assert(timetable.day_at(i) =~= weekday(rows, i));
            }
        }
        Ok(timetable)
    }

    pub open spec fn is_empty(&self) -> bool {
        &&& self.sunday@.len() == 0
        &&& self.monday@.len() == 0
        &&& self.tuesday@.len() == 0
        &&& self.wednesday@.len() == 0
        &&& self.thursday@.len() == 0
        &&& self.friday@.len() == 0
        &&& self.saturday@.len() == 0
        &&& self.another_sunday@.len() == 0
    }

    /// A timetable with no lessons.
    pub fn new() -> (r: Self)
        ensures
            r.is_empty(),
    {
        TimeTable {
            sunday: Vec::new(),
            monday: Vec::new(),
            tuesday: Vec::new(),
            wednesday: Vec::new(),
            thursday: Vec::new(),
            friday: Vec::new(),
            saturday: Vec::new(),
            another_sunday: Vec::new(),
        }
    }
}

} // verus!
