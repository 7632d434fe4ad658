//! The two small grammars that a cell's text fragments are read with: the tag
//! of another group sharing the slot (`3BIS4`), and the numeric note in
//! parentheses that follows a room (`Room 101 (30)`).
use vstd::prelude::*;
use crate::text::occurs_at;

verus! {

/// A decimal digit. Only the ASCII digits `0` to `9` count, not the digits
/// of other scripts that a Unicode `\d` class would also take.
pub open spec fn is_digit(c: char) -> bool {
    '0' <= c && c <= '9'
}

/// A space inside a room note. Only the six ASCII white-space characters
/// count, not the wider Unicode White_Space set that a Unicode `\s` class
/// would take.
pub open spec fn is_space(c: char) -> bool {
    c == ' ' || c == '\t' || c == '\n' || c == '\r' || c == '\x0B' || c == '\x0C'
}

/// The programme codes that a group tag can carry.
pub open spec fn program_codes() -> Seq<Seq<char>> {
    seq![
        seq!['C', 'I', 'F', 'S'],
        seq!['B', 'A', 'B', 'M'],
        seq!['B', 'I', 'S'],
        seq!['C', 'L'],
        seq!['E', 'C', 'w', 'F'],
        seq!['F', 'i', 'n'],
        seq!['B', 'M', 'F', 'i', 'n'],
        seq!['B', 'M', 'M', 'a', 'r'],
    ]
}

/// `code` stands at `i` and a digit follows it.
pub open spec fn code_then_digit(s: Seq<char>, code: Seq<char>, i: int) -> bool {
    occurs_at(s, code, i) && i + code.len() < s.len() && is_digit(s[i + code.len()])
}

/// A group tag (a digit, a programme code, a number) begins at `i`.
pub open spec fn tag_at(s: Seq<char>, i: int) -> bool {
    &&& 0 <= i < s.len()
    &&& is_digit(s[i])
    &&& exists|k: int| 0 <= k < program_codes().len() && code_then_digit(s, program_codes()[k], i + 1)
}

/// The fragment names another group somewhere in it.
pub open spec fn has_group_tag(s: Seq<char>) -> bool {
    exists|i: int| tag_at(s, i)
}

/// The first index at or after `j` that holds no digit.
pub open spec fn digits_end(s: Seq<char>, j: int) -> int
    decreases s.len() - j,
{
    if j < 0 || j >= s.len() || !is_digit(s[j]) {
        j
    } else {
        digits_end(s, j + 1)
    }
}

/// Where a note `(` [space] digits [space] `)` that begins at `q` ends.
pub open spec fn paren_end(s: Seq<char>, q: int) -> Option<int> {
    if !(0 <= q < s.len() && s[q] == '(') {
        None
    } else {
        let a = if q + 1 < s.len() && is_space(s[q + 1]) { q + 2 } else { q + 1 };
        let d = digits_end(s, a);
        let b = if d < s.len() && is_space(s[d]) { d + 1 } else { d };
        if d > a && b < s.len() && s[b] == ')' {
            Some(b + 1)
        } else {
            None
        }
    }
}

/// Where a note that begins at `p`, with one space before it or none, ends;
/// the form with the space is preferred.
pub open spec fn note_at(s: Seq<char>, p: int) -> Option<int> {
    if 0 <= p < s.len() && is_space(s[p]) && paren_end(s, p + 1) is Some {
        paren_end(s, p + 1)
    } else {
        paren_end(s, p)
    }
}

/// The leftmost note at or after `p`, as the range it covers.
pub open spec fn first_note_from(s: Seq<char>, p: int) -> Option<(int, int)>
    decreases s.len() - p,
{
    if p < 0 || p >= s.len() {
        None
    } else if note_at(s, p) is Some {
        Some((p, note_at(s, p)->0))
    } else {
        first_note_from(s, p + 1)
    }
}

/// The text with its leftmost numeric note in parentheses removed.
pub open spec fn without_count_note(s: Seq<char>) -> Seq<char> {
    match first_note_from(s, 0) {
        Some((a, b)) => s.subrange(0, a) + s.subrange(b, s.len() as int),
        None => s,
    }
}

fn is_digit_char(c: char) -> (r: bool)
    ensures
        r == is_digit(c),
{
    '0' <= c && c <= '9'
}

fn is_space_char(c: char) -> (r: bool)
    ensures
        r == is_space(c),
{
    c == ' ' || c == '\t' || c == '\n' || c == '\r' || c == '\x0B' || c == '\x0C'
}

fn code_then_digit_at(v: &Vec<char>, code: &Vec<char>, i: usize) -> (r: bool)
    ensures
        r == code_then_digit(v@, code@, i as int),
{
    if crate::text::matches_at(v, code, i) {
        let n = v.len();
        i < n && code.len() < n - i && is_digit_char(v[i + code.len()])
    } else {
        false
    }
}

fn program_code_list() -> (r: Vec<Vec<char>>)
    ensures
        r@.len() == program_codes().len(),
        forall|k: int| 0 <= k < r@.len() ==> #[trigger] r@[k]@ == program_codes()[k],
{
    let r = vec![
        vec!['C', 'I', 'F', 'S'],
        vec!['B', 'A', 'B', 'M'],
        vec!['B', 'I', 'S'],
        vec!['C', 'L'],
        vec!['E', 'C', 'w', 'F'],
        vec!['F', 'i', 'n'],
        vec!['B', 'M', 'F', 'i', 'n'],
        vec!['B', 'M', 'M', 'a', 'r'],
    ];
    assert(r@[0]@ =~= program_codes()[0]);
    assert(r@[1]@ =~= program_codes()[1]);
    assert(r@[2]@ =~= program_codes()[2]);
    assert(r@[3]@ =~= program_codes()[3]);
    assert(r@[4]@ =~= program_codes()[4]);
    assert(r@[5]@ =~= program_codes()[5]);
    assert(r@[6]@ =~= program_codes()[6]);
    assert(r@[7]@ =~= program_codes()[7]);
    r
}

/// Whether the fragment holds another group's tag, such as `3BIS4`.
pub fn names_other_group(v: &Vec<char>) -> (r: bool)
    ensures
        r == has_group_tag(v@),
{
    let codes = program_code_list();
    let mut i: usize = 0;
    while i < v.len()
        invariant
            i <= v.len(),
            codes@.len() == program_codes().len(),
            forall|k: int| 0 <= k < codes@.len() ==> #[trigger] codes@[k]@ == program_codes()[k],
            forall|j: int| 0 <= j < i ==> !tag_at(v@, j),
        decreases v.len() - i,
    {
        if is_digit_char(v[i]) {
            let mut k: usize = 0;
            while k < codes.len()
                invariant
                    i < v.len(),
                    is_digit(v@[i as int]),
                    k <= codes@.len(),
                    codes@.len() == program_codes().len(),
                    forall|m: int| 0 <= m < codes@.len() ==> #[trigger] codes@[m]@ == program_codes()[m],
                    forall|m: int| 0 <= m < k ==> !code_then_digit(v@, program_codes()[m], i + 1),
                decreases codes.len() - k,
            {
                if code_then_digit_at(v, &codes[k], i + 1) {
                    assert(code_then_digit(v@, program_codes()[k as int], i + 1));
                    assert(tag_at(v@, i as int));
                    return true;
                }
                k += 1;
            }
        }
        i += 1;
    }
    false
}

fn digits_end_from(v: &Vec<char>, j: usize) -> (r: usize)
    requires
        j <= v.len(),
    ensures
        r == digits_end(v@, j as int),
        j <= r <= v.len(),
{
    let mut e: usize = j;
    while e < v.len() && is_digit_char(v[e])
        invariant
            j <= e <= v.len(),
            digits_end(v@, j as int) == digits_end(v@, e as int),
        decreases v.len() - e,
    {
        e += 1;
    }
    e
}

fn paren_end_at(v: &Vec<char>, q: usize) -> (r: Option<usize>)
    ensures
        match paren_end(v@, q as int) {
            Some(e) => r == Some(e as usize) && e <= v.len(),
            None => r is None,
        },
{
    if q >= v.len() || v[q] != '(' {
        return None;
    }
    let a = if q + 1 < v.len() && is_space_char(v[q + 1]) { q + 2 } else { q + 1 };
    let d = digits_end_from(v, a);
    let b = if d < v.len() && is_space_char(v[d]) { d + 1 } else { d };
    if d > a && b < v.len() && v[b] == ')' {
        Some(b + 1)
    } else {
        None
    }
}

fn note_at_pos(v: &Vec<char>, p: usize) -> (r: Option<usize>)
    requires
        p < v.len(),
    ensures
        match note_at(v@, p as int) {
            Some(e) => r == Some(e as usize) && e <= v.len(),
            None => r is None,
        },
{
    if is_space_char(v[p]) {
        let e = paren_end_at(v, p + 1);
        if e.is_some() {
            return e;
        }
    }
    paren_end_at(v, p)
}

/// The text with its leftmost numeric note in parentheses, and the one space
/// before the note if there is one, removed: `"Room 101 (30)"` becomes
/// `"Room 101"`.
pub fn strip_count_note(v: &Vec<char>) -> (r: Vec<char>)
    ensures
        r@ == without_count_note(v@),
{
    let mut p: usize = 0;
    while p < v.len()
        invariant
            p <= v.len(),
            first_note_from(v@, 0) == first_note_from(v@, p as int),
        decreases v.len() - p,
    {
        match note_at_pos(v, p) {
            Some(e) => {
                let mut r = crate::text::slice_chars(v, 0, p);
                let rest = crate::text::slice_chars(v, e, v.len());
                let mut i: usize = 0;
                let ghost head = r@;
                while i < rest.len()
                    invariant
                        i <= rest@.len(),
                        r@ == head + rest@.subrange(0, i as int),
                    decreases rest.len() - i,
                {
                    r.push(rest[i]);
                    i += 1;
                    assert(r@ =~= head + rest@.subrange(0, i as int));
                }
                assert(rest@.subrange(0, rest@.len() as int) =~= rest@);
                return r;
            },
            None => {},
        }
        p += 1;
    }
    let mut r: Vec<char> = Vec::new();
    let mut i: usize = 0;
    while i < v.len()
        invariant
            i <= v.len(),
            r@ == v@.subrange(0, i as int),
        decreases v.len() - i,
    {
        r.push(v[i]);
        i += 1;
        assert(r@ =~= v@.subrange(0, i as int));
    }
    assert(v@.subrange(0, v@.len() as int) =~= v@);
    r
}

} // verus!
