//! A single lesson, as it stands in a day of the timetable.
use vstd::prelude::*;
use crate::fragment::{strip_count_note, without_count_note};
use crate::label::{decoded_format, decoded_name, process_class, Format};
use crate::text::{chars_of, string_of, trim_of, trim_text};

verus! {

/// A lesson. `start` is the hour of the day at which it begins and `length`
/// the number of whole hours that it lasts.
#[derive(Debug, Clone, PartialEq, Eq)]
pub struct Lesson {
    /// Name of the module.
    pub name: String,
    /// Name of the tutor giving the lesson.
    pub tutor: String,
    /// How the lesson is delivered.
    pub format: Format,
    /// The hour at which the lesson starts.
    pub start: u64,
    /// How many hours the lesson lasts.
    pub length: u64,
    /// The room in which the lesson is held.
    pub location: String,
}

/// What a lesson holds, as mathematical values.
pub struct LessonView {
    pub name: Seq<char>,
    pub tutor: Seq<char>,
    pub format: Format,
    pub start: int,
    pub length: int,
    pub location: Seq<char>,
}

impl View for Lesson {
    type V = LessonView;

    open spec fn view(&self) -> LessonView {
        LessonView {
            name: self.name@,
            tutor: self.tutor@,
            format: self.format,
            start: self.start as int,
            length: self.length as int,
            location: self.location@,
        }
    }
}

/// The one-hour lesson that a cell's triple (location, label, tutor) stands for.
pub open spec fn lesson_from(
    start: int,
    location: Seq<char>,
    label: Seq<char>,
    tutor: Seq<char>,
) -> LessonView {
    LessonView {
        name: decoded_name(trim_of(label)),
        tutor: trim_of(tutor),
        format: decoded_format(trim_of(label)),
        start,
        length: 1,
        location: trim_of(without_count_note(location)),
    }
}

/// `next` is the same lesson as `prev` and starts in the hour at which `prev` ends.
pub open spec fn continues(next: LessonView, prev: LessonView) -> bool {
    next.name == prev.name && next.format == prev.format && next.start == prev.start + prev.length
}

/// `l` lasting one hour more.
pub open spec fn prolonged(l: LessonView) -> LessonView {
    LessonView { length: l.length + 1, ..l }
}

impl Lesson {
    /// The one-hour lesson starting at `start` that a cell's triple stands for:
    /// the location loses its numeric note in parentheses and is trimmed, the
    /// label is decoded into name and format, and the tutor is trimmed.
    pub fn new(start: u64, location: &str, label: &str, tutor: &str) -> (r: Lesson)
        ensures
            r@ == lesson_from(start as int, location@, label@, tutor@),
    {
        let (name, format) = process_class(trim_text(label));
        let tutor = trim_text(tutor).to_owned();
        let room = string_of(&strip_count_note(&chars_of(location)));
        let location = trim_text(room.as_str()).to_owned();
        Lesson { name, tutor, format, start, length: 1, location }
    }

    /// Whether this lesson continues `lesson`: same name and format, starting
    /// when `lesson` ends.
    pub fn is_continuation(&self, lesson: &Lesson) -> (r: bool)
        ensures
            r == continues(self@, lesson@),
    {
        self.name == lesson.name && self.format == lesson.format && self.start >= lesson.start
            && self.start - lesson.start == lesson.length
    }

    /// Adds one hour to the lesson's length.
    pub fn prolong(&mut self)
        requires
            old(self).length < u64::MAX,
        ensures
            final(self)@ == prolonged(old(self)@),
    {
        self.length = self.length + 1;
    }
}

} // verus!
