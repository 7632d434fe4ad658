//! Group names and the table of their codes.
use vstd::prelude::*;
use crate::fragment::is_digit;
use crate::text::{chars_of, slice_chars, string_of};

verus! {

/// How many entries of the group list are undergraduate groups, which come first.
pub const UNDERGRADUATE_GROUPS: usize = 180;

/// A course (year) can begin at `i`: a digit from 3 to 6 followed by a non-digit.
pub open spec fn course_starts_at(s: Seq<char>, i: int) -> bool {
    0 <= i && i + 1 < s.len() && '3' <= s[i] && s[i] <= '6' && !is_digit(s[i + 1])
}

/// The first index at or after `j` that holds a digit, or the length.
pub open spec fn next_digit(s: Seq<char>, j: int) -> int
    decreases s.len() - j,
{
    if j < 0 || j >= s.len() || is_digit(s[j]) {
        j
    } else {
        next_digit(s, j + 1)
    }
}

/// The course part of a group name such as `6BIS6`: the first digit from 3
/// to 6 that a non-digit follows, with all the non-digits after it (`6BIS`).
pub open spec fn course_part(s: Seq<char>) -> Option<Seq<char>> {
    if exists|i: int| course_starts_at(s, i) {
        let i = choose|i: int| course_starts_at(s, i) && forall|j: int| 0 <= j < i ==> !course_starts_at(s, j);
        Some(s.subrange(i, next_digit(s, i + 1)))
    } else {
        None
    }
}

/// The course that a group belongs to, as its name gives it (`6BIS6` is in
/// `6BIS`); `None` when the name shows no course.
pub fn course_of(group: &str) -> (r: Option<String>)
    ensures
        match course_part(group@) {
            Some(c) => r matches Some(t) && t@ == c,
            None => r is None,
        },
{
    let v = chars_of(group);
    let mut i: usize = 0;
    while i < v.len()
        invariant
            v@ == group@,
            i <= v.len(),
            forall|j: int| 0 <= j < i ==> !course_starts_at(v@, j),
        decreases v.len() - i,
    {
        if i + 1 < v.len() && '3' <= v[i] && v[i] <= '6' && !('0' <= v[i + 1] && v[i + 1] <= '9') {
            let mut e: usize = i + 1;
            while e < v.len() && !('0' <= v[e] && v[e] <= '9')
                invariant
                    i + 1 <= e <= v.len(),
                    next_digit(v@, i + 1) == next_digit(v@, e as int),
                decreases v.len() - e,
            {
                e += 1;
            }
            proof {
                assert(course_starts_at(v@, i as int));
                let k = choose|k: int| course_starts_at(v@, k) && forall|j: int| 0 <= j < k ==> !course_starts_at(v@, j);
                assert(k == i) by {
                    if k < i {
                        assert(!course_starts_at(v@, k));
                    } else if k > i {
                    }
                }
            }
            return Some(string_of(&slice_chars(&v, i, e)));
        }
        i += 1;
    }
    assert forall|j: int| !course_starts_at(v@, j) by {
        if 0 <= j < i {
        }
    }
    None
}

/// Pairs each undergraduate group's name with its code, in list order. The
/// lists give names and codes in the same order, and the undergraduate
/// groups come first.
pub fn pair_group_codes(names: &Vec<String>, codes: &Vec<String>) -> (r: Vec<(String, String)>)
    requires
        names@.len() >= UNDERGRADUATE_GROUPS,
        codes@.len() >= UNDERGRADUATE_GROUPS,
    ensures
        r@.len() == UNDERGRADUATE_GROUPS,
        forall|i: int|
            0 <= i < UNDERGRADUATE_GROUPS ==> #[trigger] r@[i].0@ == names@[i]@ && r@[i].1@
                == codes@[i]@,
{
    let mut r: Vec<(String, String)> = Vec::new();
    let mut i: usize = 0;
    while i < UNDERGRADUATE_GROUPS
        invariant
            i <= UNDERGRADUATE_GROUPS,
            names@.len() >= UNDERGRADUATE_GROUPS,
            codes@.len() >= UNDERGRADUATE_GROUPS,
            r@.len() == i,
            forall|k: int| 0 <= k < i ==> #[trigger] r@[k].0@ == names@[k]@ && r@[k].1@ == codes@[k]@,
        decreases UNDERGRADUATE_GROUPS - i,
    {
        r.push((names[i].clone(), codes[i].clone()));
        i += 1;
    }
    r
}

} // verus!
