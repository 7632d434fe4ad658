use wiut_timetable::group::{course_of, pair_group_codes, UNDERGRADUATE_GROUPS};
use wiut_timetable::label::{process_class, Format};
use wiut_timetable::lesson::Lesson;
use wiut_timetable::timetable::{TimeTable, TimetableError};

fn lesson(name: &str, format: Format, start: u64, length: u64, location: &str, tutor: &str) -> Lesson {
    Lesson {
        name: name.to_string(),
        tutor: tutor.to_string(),
        format,
        start,
        length,
        location: location.to_string(),
    }
}

#[test]
fn decoding_is_repeatable() {
    let first = process_class("Online_Statistics_lec_2");
    let second = process_class("Online_Statistics_lec_2");
    assert_eq!(first, second);
    assert_eq!(first, ("Statistics".to_string(), Format::OnlineLecture));
}

#[test]
fn truncated_name_is_repaired() {
    let (name, format) = process_class("Organisational Beha_lec_1");
    assert_eq!(name, "Organisational Behaviour");
    assert_eq!(format, Format::Lecture);
    let (name, _) = process_class("online / Organisational Beha _w_1");
    assert_eq!(name, "Organisational Behaviour");
}

#[test]
fn formats_are_classified() {
    assert_eq!(process_class("Econ_lec_1").1, Format::Lecture);
    assert_eq!(process_class("Econ_w_1").1, Format::Workshop);
    assert_eq!(process_class("Econ_sem_1").1, Format::Seminar);
    assert_eq!(process_class("Econ_lec_w_1").1, Format::Lecture);
    assert_eq!(process_class("Online_Econ_lec_1").1, Format::OnlineLecture);
    assert_eq!(process_class("online / Econ_w_1").1, Format::OnlineWorkshop);
    assert_eq!(process_class("ONLINE_Econ_x").1, Format::OnlineSeminar);
    assert_eq!(process_class("Online / Econ_sem").0, "Econ");
}

#[test]
fn label_without_underscore_is_a_seminar() {
    assert_eq!(process_class("Econometrics"), ("Econometrics".to_string(), Format::Seminar));
    assert_eq!(process_class(""), (String::new(), Format::Seminar));
}

#[test]
fn format_names() {
    assert_eq!(Format::Lecture.as_str(), "lecture");
    assert_eq!(Format::OnlineLecture.as_str(), "online lecture");
    assert_eq!(Format::Seminar.as_str(), "seminar");
    assert_eq!(Format::OnlineSeminar.as_str(), "online seminar");
    assert_eq!(Format::Workshop.as_str(), "workshop");
    assert_eq!(Format::OnlineWorkshop.as_str(), "online workshop");
}

#[test]
fn new_lesson_cleans_its_fields() {
    let l = Lesson::new(10, "Room 101 (30)", "  Econ_lec_1 ", "  Dr. Smith ");
    assert_eq!(l, lesson("Econ", Format::Lecture, 10, 1, "Room 101", "Dr. Smith"));
    let l = Lesson::new(9, "ATB 305( 24 )", "Econ_w_1", "T");
    assert_eq!(l.location, "ATB 305");
    let l = Lesson::new(9, "Room (A)", "Econ_w_1", "T");
    assert_eq!(l.location, "Room (A)");
}

#[test]
fn continuation_and_prolonging() {
    let mut first = lesson("Econ", Format::Lecture, 9, 1, "R", "T");
    let next = lesson("Econ", Format::Lecture, 10, 1, "R", "T");
    let later = lesson("Econ", Format::Lecture, 11, 1, "R", "T");
    let other = lesson("Econ", Format::Seminar, 10, 1, "R", "T");
    assert!(next.is_continuation(&first));
    assert!(!later.is_continuation(&first));
    assert!(!other.is_continuation(&first));
    assert!(!first.is_continuation(&next));
    first.prolong();
    assert_eq!(first.length, 2);
    assert!(later.is_continuation(&first));
}

#[test]
fn fragment_noise_is_filtered() {
    let r = TimeTable::process_slot(
        vec!["", "  ", "3BIS4", "Room101", "Econ101_lec_extra", "Dr. Smith"],
        0,
    );
    assert_eq!(
        r,
        Ok(vec![lesson("Econ101", Format::Lecture, 9, 1, "Room101", "Dr. Smith")])
    );
}

#[test]
fn group_tags_of_every_programme_are_dropped() {
    let r = TimeTable::process_slot(
        vec!["4CIFS1", "5BABM12", "6CL2", "3ECwF1", "4Fin3", "5BMFin1", "6BMMar2", "R", "Econ_w_", "T"],
        1,
    );
    assert_eq!(r, Ok(vec![lesson("Econ", Format::Workshop, 10, 1, "R", "T")]));
    let kept = TimeTable::process_slot(vec!["BIS4", "Econ_w_", "T"], 0);
    assert_eq!(kept, Ok(vec![lesson("Econ", Format::Workshop, 9, 1, "BIS4", "T")]));
}

#[test]
fn two_fragments_get_a_location() {
    let r = TimeTable::process_slot(vec![" ", "Intro to Crypto_lec_1", "Dr. A"], 2);
    assert_eq!(
        r,
        Ok(vec![lesson("Intro to Crypto", Format::Lecture, 11, 1, "blockchain", "Dr. A")])
    );
}

#[test]
fn four_fragments_are_malformed() {
    let r = TimeTable::process_slot(vec!["R1", "Econ_lec_", "T1", "R2"], 0);
    assert_eq!(r, Err(TimetableError::MalformedCell));
    let r = TimeTable::process_slot(vec!["R1"], 0);
    assert_eq!(r, Err(TimetableError::MalformedCell));
}

#[test]
fn empty_cell_has_no_lessons() {
    assert_eq!(TimeTable::process_slot(vec![], 3), Ok(vec![]));
    assert_eq!(TimeTable::process_slot(vec!["\n", " "], 3), Ok(vec![]));
}

#[test]
fn stacked_cell_makes_several_lessons() {
    let r = TimeTable::process_slot(vec!["R1", "Econ_lec_", "T1", "R2", "Stats_w_", "T2"], 4);
    assert_eq!(
        r,
        Ok(vec![
            lesson("Econ", Format::Lecture, 13, 1, "R1", "T1"),
            lesson("Stats", Format::Workshop, 13, 1, "R2", "T2"),
        ])
    );
}

#[test]
fn adjacent_hours_merge() {
    let day = TimeTable::get_day_lessons(vec![
        vec!["R", "Econ_lec_", "T"],
        vec!["R", "Econ_lec_", "T"],
    ]);
    assert_eq!(day, Ok(vec![lesson("Econ", Format::Lecture, 9, 2, "R", "T")]));
}

#[test]
fn merging_chains_over_three_hours() {
    let day = TimeTable::get_day_lessons(vec![
        vec![],
        vec!["R", "Econ_lec_", "T"],
        vec!["R", "Econ_lec_", "T"],
        vec!["R", "Econ_lec_", "T"],
    ]);
    assert_eq!(day, Ok(vec![lesson("Econ", Format::Lecture, 10, 3, "R", "T")]));
}

#[test]
fn non_contiguous_lessons_stay_apart() {
    let day = TimeTable::get_day_lessons(vec![
        vec!["R", "Econ_lec_", "T"],
        vec![],
        vec!["R", "Econ_lec_", "T"],
    ]);
    assert_eq!(
        day,
        Ok(vec![
            lesson("Econ", Format::Lecture, 9, 1, "R", "T"),
            lesson("Econ", Format::Lecture, 11, 1, "R", "T"),
        ])
    );
}

#[test]
fn different_format_does_not_merge() {
    let day = TimeTable::get_day_lessons(vec![
        vec!["R", "Econ_lec_", "T"],
        vec!["R", "Econ_w_", "T"],
    ]);
    assert_eq!(
        day,
        Ok(vec![
            lesson("Econ", Format::Lecture, 9, 1, "R", "T"),
            lesson("Econ", Format::Workshop, 10, 1, "R", "T"),
        ])
    );
}

#[test]
fn stacking_count_change() {
    let day = TimeTable::get_day_lessons(vec![
        vec!["R1", "Econ_lec_", "T1", "R2", "Stats_w_", "T2"],
        vec!["R2", "Stats_w_", "T2"],
        vec!["R3", "Law_lec_", "T3", "R2", "Stats_w_", "T2"],
    ]);
    assert_eq!(
        day,
        Ok(vec![
            lesson("Econ", Format::Lecture, 9, 1, "R1", "T1"),
            lesson("Stats", Format::Workshop, 9, 3, "R2", "T2"),
            lesson("Law", Format::Lecture, 11, 1, "R3", "T3"),
        ])
    );
}

#[test]
fn malformed_cell_fails_the_day() {
    let day = TimeTable::get_day_lessons(vec![
        vec!["R", "Econ_lec_", "T"],
        vec!["R", "Econ_lec_", "T", "extra"],
    ]);
    assert_eq!(day, Err(TimetableError::MalformedCell));
}

#[test]
fn empty_day() {
    assert_eq!(TimeTable::get_day_lessons(vec![]), Ok(vec![]));
    assert_eq!(TimeTable::get_day_lessons(vec![vec![], vec![" "]]), Ok(vec![]));
}

#[test]
fn rows_map_to_weekdays_in_order() {
    let names = ["A", "B", "C", "D", "E", "F"];
    let labels = ["A_lec_", "B_lec_", "C_lec_", "D_lec_", "E_lec_", "F_lec_"];
    let grid: Vec<Vec<Vec<&str>>> = labels.iter().map(|l| vec![vec!["R", *l, "T"]]).collect();
    let week = TimeTable::from_grid(grid).unwrap();
    let days = [
        &week.monday,
        &week.tuesday,
        &week.wednesday,
        &week.thursday,
        &week.friday,
        &week.saturday,
    ];
    for (day, name) in days.iter().zip(names.iter()) {
        assert_eq!(**day, vec![lesson(name, Format::Lecture, 9, 1, "R", "T")]);
    }
    assert!(week.sunday.is_empty());
    assert!(week.another_sunday.is_empty());
}

#[test]
fn short_grid_leaves_later_days_empty() {
    let week = TimeTable::from_grid(vec![vec![vec!["R", "A_w_", "T"]]]).unwrap();
    assert_eq!(week.monday, vec![lesson("A", Format::Workshop, 9, 1, "R", "T")]);
    assert!(week.tuesday.is_empty());
    assert!(week.saturday.is_empty());
    assert_eq!(TimeTable::from_grid(vec![]), Ok(TimeTable::new()));
}

#[test]
fn too_many_rows_is_a_protocol_error() {
    let grid: Vec<Vec<Vec<&str>>> = (0..7).map(|_| vec![]).collect();
    assert_eq!(TimeTable::from_grid(grid), Err(TimetableError::ProtocolError));
}

#[test]
fn malformed_cell_fails_the_week() {
    let grid = vec![vec![], vec![vec!["R", "A_w_"], vec!["x", "y", "z", "w"]]];
    assert_eq!(TimeTable::from_grid(grid), Err(TimetableError::MalformedCell));
}

#[test]
fn course_of_group() {
    assert_eq!(course_of("6BIS6"), Some("6BIS".to_string()));
    assert_eq!(course_of("4BABM12"), Some("4BABM".to_string()));
    assert_eq!(course_of("12CL3"), None);
    assert_eq!(course_of("x3y"), Some("3y".to_string()));
    assert_eq!(course_of(""), None);
}

#[test]
fn group_codes_are_paired() {
    let names: Vec<String> = (0..200).map(|i| format!("group{}", i)).collect();
    let codes: Vec<String> = (0..200).map(|i| format!("{}", 1000 + i)).collect();
    let pairs = pair_group_codes(&names, &codes);
    assert_eq!(pairs.len(), UNDERGRADUATE_GROUPS);
    assert_eq!(pairs[0], ("group0".to_string(), "1000".to_string()));
    assert_eq!(pairs[179], ("group179".to_string(), "1179".to_string()));
}

fn page(rows: &[&str]) -> String {
    let mut html = String::from(
        "<html><body><div id=\"grid\"><div class=\"row cf\"><div class=\"col\">Time</div>\
         <div class=\"col\"><div class=\"innerbox\">09:00</div></div></div>",
    );
    for row in rows {
        html.push_str("<div class=\"row cf\"><div class=\"col\">Day</div>");
        html.push_str(row);
        html.push_str("</div>");
    }
    html.push_str("</div></body></html>");
    html
}

#[test]
fn week_from_html_page() {
    let cell = "<div class=\"col\"><div class=\"innerbox\"> <p>R1 (20)</p> <p>Econ_lec_a</p> <p>T1</p> </div></div>";
    let empty = "<div class=\"col\"><div class=\"innerbox\"> </div></div>";
    let monday = format!("{}{}", cell, cell);
    let tuesday = format!("{}{}", empty, cell);
    let week = TimeTable::from_html(&page(&[&monday, &tuesday])).unwrap();
    assert_eq!(week.monday, vec![lesson("Econ", Format::Lecture, 9, 2, "R1", "T1")]);
    assert_eq!(week.tuesday, vec![lesson("Econ", Format::Lecture, 10, 1, "R1", "T1")]);
    assert!(week.wednesday.is_empty());
    assert!(week.sunday.is_empty());
}

#[test]
fn html_page_with_seven_rows_is_a_protocol_error() {
    let row = "<div class=\"col\"><div class=\"innerbox\"> </div></div>";
    let rows = [row; 7];
    assert_eq!(TimeTable::from_html(&page(&rows)), Err(TimetableError::ProtocolError));
}

#[test]
fn unicode_white_space_is_trimmed() {
    let l = Lesson::new(9, "\u{a0}R1\u{3000}", "\u{2003}Econ_w_", "\u{85}Dr. A\u{2028}");
    assert_eq!(l, lesson("Econ", Format::Workshop, 9, 1, "R1", "Dr. A"));
    let r = TimeTable::process_slot(vec!["\u{3000}", "R", "Econ_w_", "T"], 0);
    assert_eq!(r, Ok(vec![lesson("Econ", Format::Workshop, 9, 1, "R", "T")]));
}
