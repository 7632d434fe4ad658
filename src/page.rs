//! Reading the grid out of a timetable page.
use vstd::prelude::*;
use scraper::{Html, Selector};
use crate::day::row_texts;
use crate::slot::texts;
use crate::timetable::{
    grid_is_well_formed, grid_texts, weekday, TimeTable, TimetableError, FIRST_HOUR, WEEKDAY_ROWS,
};

verus! {

/// What `extract_grid` finds in the page `source`: for each element that the
/// CSS selector `rows_css` matches, in document order, and for each element
/// below it that `cells_css` matches, the pieces of text inside that element;
/// `None` when a selector does not parse.
pub uninterp spec fn page_grid(
    source: Seq<char>,
    rows_css: Seq<char>,
    cells_css: Seq<char>,
) -> Option<Seq<Seq<Seq<Seq<char>>>>>;

/// The characters of each piece of text of each cell of each row.
pub open spec fn owned_grid_texts(grid: Seq<Vec<Vec<String>>>) -> Seq<Seq<Seq<Seq<char>>>> {
    grid.map_values(
        |row: Vec<Vec<String>>|
            row@.map_values(|cell: Vec<String>| cell@.map_values(|piece: String| piece@)),
    )
}

/// Relies on scraper's `Html::parse_document`, `Selector::parse`,
/// `Html::select`, `ElementRef::select` and `ElementRef::text`: each walks the
/// parsed tree, so the grid depends on the page's text and the two selectors
/// alone. `Selector::parse` fails on text that is not a CSS selector.
#[verifier::external_body]
fn extract_grid(source: &str, rows_css: &str, cells_css: &str) -> (r: Option<Vec<Vec<Vec<String>>>>)
    ensures
        match page_grid(source@, rows_css@, cells_css@) {
            Some(g) => r matches Some(v) && owned_grid_texts(v@) == g,
            None => r is None,
        },
{
    let document = Html::parse_document(source);
    let rows = Selector::parse(rows_css).ok()?;
    let cells = Selector::parse(cells_css).ok()?;
    Some(
        document.select(&rows).map(
            |row| row.select(&cells).map(|el| el.text().map(|t| t.to_string()).collect()).collect(),
        ).collect(),
    )
}

/// The rows of the grid: every `div.row.cf` but the first, which only names
/// the time slots.
pub open spec fn rows_selector() -> Seq<char> {
    "div.row.cf:not(:first-of-type)"@
}

/// The cells of a row: the `.innerbox` of every `div.col` but the first,
/// which only names the weekday.
pub open spec fn cells_selector() -> Seq<char> {
    "div.col:not(:first-of-type) .innerbox"@
}

/// Every row has few enough cells for their hours to be counted.
pub open spec fn rows_fit(g: Seq<Seq<Seq<Seq<char>>>>) -> bool {
    forall|i: int| 0 <= i < g.len() ==> #[trigger] g[i].len() + FIRST_HOUR <= u64::MAX
}

/// The same grid, with each piece of text borrowed.
fn borrow_grid(grid: &Vec<Vec<Vec<String>>>) -> (r: Vec<Vec<Vec<&str>>>)
    ensures
        grid_texts(r@) == owned_grid_texts(grid@),
{
    let mut r: Vec<Vec<Vec<&str>>> = Vec::new();
    let mut i: usize = 0;
    while i < grid.len()
        invariant
            i <= grid@.len(),
            r@.len() == i,
            forall|m: int| 0 <= m < i ==> #[trigger] row_texts(r@[m]@) == owned_grid_texts(grid@)[m],
        decreases grid.len() - i,
    {
        let row = &grid[i];
        let mut cells: Vec<Vec<&str>> = Vec::new();
        let mut j: usize = 0;
        while j < row.len()
            invariant
                j <= row@.len(),
                cells@.len() == j,
                forall|m: int| 0 <= m < j ==> #[trigger] texts(cells@[m]@) == row@[m]@.map_values(
                    |piece: String| piece@,
                ),
            decreases row.len() - j,
        {
            let cell = &row[j];
            let mut pieces: Vec<&str> = Vec::new();
            let mut k: usize = 0;
            while k < cell.len()
                invariant
                    k <= cell@.len(),
                    pieces@.len() == k,
                    forall|m: int| 0 <= m < k ==> #[trigger] pieces@[m]@ == cell@[m]@,
                decreases cell.len() - k,
            {
                pieces.push(cell[k].as_str());
                k += 1;
            }
            assert(texts(pieces@) =~= cell@.map_values(|piece: String| piece@));
            cells.push(pieces);
            j += 1;
        }
        assert(row_texts(cells@) =~= owned_grid_texts(grid@)[i as int]);
        r.push(cells);
        i += 1;
    }
    assert(grid_texts(r@) =~= owned_grid_texts(grid@));
    r
}

impl TimeTable {
    /// The week that a timetable page shows.
    ///
    /// The page's first row only names the time slots and the first column
    /// of each row only names the weekday: both are skipped, and the rest is
    /// the grid that `from_grid` reads. A page whose rows hold more cells
    /// than hours can count breaks the page's layout and fails as a protocol
    /// error, as a page with more rows than weekdays does.
    pub fn from_html(source: &str) -> (r: Result<TimeTable, TimetableError>)
        ensures
            match page_grid(source@, rows_selector(), cells_selector()) {
                None => r == Err::<TimeTable, TimetableError>(TimetableError::ProtocolError),
                Some(g) => {
                    &&& g.len() > WEEKDAY_ROWS || !rows_fit(g) ==> r == Err::<
                        TimeTable,
                        TimetableError,
                    >(TimetableError::ProtocolError)
                    &&& g.len() <= WEEKDAY_ROWS && rows_fit(g) && !grid_is_well_formed(g) ==> r
                        == Err::<TimeTable, TimetableError>(TimetableError::MalformedCell)
                    &&& g.len() <= WEEKDAY_ROWS && rows_fit(g) && grid_is_well_formed(g) ==> (r matches Ok(
                        t,
                    ) && t.sunday@.len() == 0 && t.another_sunday@.len() == 0 && forall|i: int|
                        0 <= i < WEEKDAY_ROWS ==> #[trigger] t.day_at(i) == weekday(g, i))
                },
            },
    {
        let rows_css = "div.row.cf:not(:first-of-type)";
        let cells_css = "div.col:not(:first-of-type) .innerbox";
        let owned = match extract_grid(source, rows_css, cells_css) {
            Some(owned) => owned,
            None => return Err(TimetableError::ProtocolError),
        };
        let ghost g = owned_grid_texts(owned@);
        let grid = borrow_grid(&owned);
        assert(page_grid(source@, rows_selector(), cells_selector()) == Some(g));
        let mut i: usize = 0;
        while i < grid.len()
            invariant
                i <= grid@.len(),
                grid_texts(grid@) == g,
                page_grid(source@, rows_selector(), cells_selector()) == Some(g),
                forall|k: int| 0 <= k < i ==> #[trigger] grid@[k]@.len() + FIRST_HOUR <= u64::MAX,
            decreases grid.len() - i,
        {
            assert(g[i as int] == row_texts(grid@[i as int]@));
            if grid[i].len() as u128 + FIRST_HOUR as u128 > u64::MAX as u128 {
                assert(!rows_fit(g));
                return Err(TimetableError::ProtocolError);
            }
            i += 1;
        }
        assert(rows_fit(g)) by {
            assert forall|k: int| 0 <= k < g.len() implies #[trigger] g[k].len() + FIRST_HOUR <= u64::MAX by {
                assert(g[k] == row_texts(grid@[k]@));
            }
        }
        TimeTable::from_grid(grid)
    }
}

} // verus!
