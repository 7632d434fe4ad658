//! Decoding of a class label such as `"Online_Statistics_lec_2"` into the
//! module's name and the lesson's format.
use vstd::prelude::*;
use crate::text::{
    after_first, before_first, begins_with, chars_of, contains_chars, ends_with, finishes_with,
    has_infix, lemma_first_pos, lower_of, lowercase, position_of, slice_chars,
    starts_with, string_of, trim_of, trim_text,
};

verus! {

/// How a lesson is delivered.
#[derive(Clone, Copy, Debug, PartialEq, Eq, Structural)]
pub enum Format {
    Lecture,
    OnlineLecture,
    Seminar,
    OnlineSeminar,
    Workshop,
    OnlineWorkshop,
}

impl Format {
    pub open spec fn is_online(self) -> bool {
        self is OnlineLecture || self is OnlineSeminar || self is OnlineWorkshop
    }

    pub open spec fn is_lecture(self) -> bool {
        self is Lecture || self is OnlineLecture
    }

    pub open spec fn is_workshop(self) -> bool {
        self is Workshop || self is OnlineWorkshop
    }

    pub open spec fn is_seminar(self) -> bool {
        self is Seminar || self is OnlineSeminar
    }

    /// The format's name as it is written out.
    pub open spec fn spec_text(self) -> Seq<char> {
        match self {
            Format::Lecture => "lecture"@,
            Format::OnlineLecture => "online lecture"@,
            Format::Seminar => "seminar"@,
            Format::OnlineSeminar => "online seminar"@,
            Format::Workshop => "workshop"@,
            Format::OnlineWorkshop => "online workshop"@,
        }
    }

    /// The format's name as it is written out (`"online lecture"`, `"seminar"`, ...).
    pub fn as_str(&self) -> (r: &'static str)
        ensures
            r@ == self.spec_text(),
    {
        match self {
            Format::Lecture => "lecture",
            Format::OnlineLecture => "online lecture",
            Format::Seminar => "seminar",
            Format::OnlineSeminar => "online seminar",
            Format::Workshop => "workshop",
            Format::OnlineWorkshop => "online workshop",
        }
    }
}

pub open spec fn online_underscore_marker() -> Seq<char> {
    seq!['o', 'n', 'l', 'i', 'n', 'e', '_']
}

pub open spec fn online_slash_marker() -> Seq<char> {
    seq!['o', 'n', 'l', 'i', 'n', 'e', ' ', '/']
}

pub open spec fn lecture_token() -> Seq<char> {
    seq!['l', 'e', 'c', '_']
}

pub open spec fn workshop_token() -> Seq<char> {
    seq!['w', '_']
}

/// The truncated module name that the source grid carries.
pub open spec fn truncated_ending() -> Seq<char> {
    seq!['B', 'e', 'h', 'a']
}

/// What completes the truncated module name.
pub open spec fn missing_ending() -> Seq<char> {
    seq!['v', 'i', 'o', 'u', 'r']
}

/// The label starts, ignoring case, with `online_`.
pub open spec fn marked_with_underscore(label: Seq<char>) -> bool {
    starts_with(lower_of(label), online_underscore_marker())
}

/// The label starts, ignoring case, with `online /`.
pub open spec fn marked_with_slash(label: Seq<char>) -> bool {
    starts_with(lower_of(label), online_slash_marker())
}

pub open spec fn has_online_marker(label: Seq<char>) -> bool {
    marked_with_underscore(label) || marked_with_slash(label)
}

/// The label without its online marker.
pub open spec fn unmarked(label: Seq<char>) -> Seq<char> {
    if marked_with_underscore(label) {
        after_first(label, '_')
    } else if marked_with_slash(label) {
        after_first(label, '/')
    } else {
        label
    }
}

/// A name cut short at `Beha` gets its ending back.
pub open spec fn repaired(name: Seq<char>) -> Seq<char> {
    if ends_with(name, truncated_ending()) {
        name + missing_ending()
    } else {
        name
    }
}

/// The format named by what follows the module name.
pub open spec fn classify(online: bool, tail: Seq<char>) -> Format {
    if has_infix(tail, lecture_token()) {
        if online { Format::OnlineLecture } else { Format::Lecture }
    } else if has_infix(tail, workshop_token()) {
        if online { Format::OnlineWorkshop } else { Format::Workshop }
    } else {
        if online { Format::OnlineSeminar } else { Format::Seminar }
    }
}

/// The module name that a label carries.
pub open spec fn decoded_name(label: Seq<char>) -> Seq<char> {
    repaired(trim_of(before_first(unmarked(label), '_')))
}

/// What follows the module name in a label.
pub open spec fn remainder(label: Seq<char>) -> Seq<char> {
    after_first(unmarked(label), '_')
}

/// The format that a label carries.
pub open spec fn decoded_format(label: Seq<char>) -> Format {
    classify(has_online_marker(label), remainder(label))
}

/// Decoding is a function of the label: equal labels decode to the same name
/// and the same format.
pub proof fn lemma_decoding_is_deterministic(a: Seq<char>, b: Seq<char>)
    requires
        a == b,
    ensures
        decoded_name(a) == decoded_name(b),
        decoded_format(a) == decoded_format(b),
{
}

/// A module name that ends in `Beha` decodes to one that ends in `Behaviour`.
pub proof fn lemma_truncated_name_is_repaired(label: Seq<char>)
    requires
        ends_with(trim_of(before_first(unmarked(label), '_')), truncated_ending()),
    ensures
        ends_with(decoded_name(label), truncated_ending() + missing_ending()),
{
    let name = trim_of(before_first(unmarked(label), '_'));
    let full = truncated_ending() + missing_ending();
    assert(decoded_name(label) == name + missing_ending());
    assert((name + missing_ending()).subrange(name.len() - 4, name.len() + 5int) =~= full);
}

/// The remainder after the module name decides the format: `lec_` gives a
/// lecture, otherwise `w_` a workshop, otherwise a seminar; and the format is
/// an online one exactly when the label carries the online marker.
pub proof fn lemma_format_classification(label: Seq<char>)
    ensures
        decoded_format(label).is_online() == has_online_marker(label),
        has_infix(remainder(label), lecture_token()) ==> decoded_format(label).is_lecture(),
        !has_infix(remainder(label), lecture_token()) && has_infix(remainder(label), workshop_token())
            ==> decoded_format(label).is_workshop(),
        !has_infix(remainder(label), lecture_token()) && !has_infix(remainder(label), workshop_token())
            ==> decoded_format(label).is_seminar(),
{
}

/// The characters of `v` after the first `c`.
fn chars_after(v: &Vec<char>, c: char) -> (r: Vec<char>)
    ensures
        r@ == after_first(v@, c),
{
    proof {
        lemma_first_pos(v@, c);
    }
    let p = position_of(v, c);
    if p < v.len() {
        slice_chars(v, p + 1, v.len())
    } else {
        Vec::new()
    }
}

/// Splits a class label into the module's name and the lesson's format.
///
/// A leading `Online_` or `online / ` (in any case) marks an online lesson and
/// is dropped. The name is what comes before the next `_`, trimmed, with a
/// trailing `Beha` completed to `Behaviour`. The rest names a lecture when it
/// holds `lec_`, a workshop when it holds `w_`, and a seminar otherwise.
pub fn process_class(class: &str) -> (r: (String, Format))
    ensures
        r.0@ == decoded_name(class@),
        r.1 == decoded_format(class@),
{
    let lower = lowercase(class);
    let lower_chars = chars_of(lower.as_str());
    let chars = chars_of(class);
    let underscore_marker = vec!['o', 'n', 'l', 'i', 'n', 'e', '_'];
    let slash_marker = vec!['o', 'n', 'l', 'i', 'n', 'e', ' ', '/'];
    assert(underscore_marker@ =~= online_underscore_marker());
    assert(slash_marker@ =~= online_slash_marker());
    let by_underscore = begins_with(&lower_chars, &underscore_marker);
    let by_slash = begins_with(&lower_chars, &slash_marker);
    let body = if by_underscore {
        chars_after(&chars, '_')
    } else if by_slash {
        chars_after(&chars, '/')
    } else {
        chars
    };
    assert(body@ == unmarked(class@));

    proof {
        lemma_first_pos(body@, '_');
    }
    let cut = position_of(&body, '_');
    let raw_name = slice_chars(&body, 0, cut);
    let tail = chars_after(&body, '_');

    let raw_name = string_of(&raw_name);
    let mut name = chars_of(trim_text(raw_name.as_str()));
    let truncated = vec!['B', 'e', 'h', 'a'];
    assert(truncated@ =~= truncated_ending());
    let ghost trimmed = name@;
    if finishes_with(&name, &truncated) {
        name.push('v');
        name.push('i');
        name.push('o');
        name.push('u');
        name.push('r');
        assert(name@ =~= trimmed + missing_ending());
    }
    assert(name@ =~= decoded_name(class@));

    let online = by_underscore || by_slash;
    let lec = vec!['l', 'e', 'c', '_'];
    let w = vec!['w', '_'];
    assert(lec@ =~= lecture_token());
    assert(w@ =~= workshop_token());
    let format = if contains_chars(&tail, &lec) {
        if online { Format::OnlineLecture } else { Format::Lecture }
    } else if contains_chars(&tail, &w) {
        if online { Format::OnlineWorkshop } else { Format::Workshop }
    } else {
        if online { Format::OnlineSeminar } else { Format::Seminar }
    };
    (string_of(&name), format)
}

} // verus!
