//! The markdown parser: heading lines, checkbox lines, inline attribute
//! tokens, and the document state machine that turns a line sequence into
//! tasks.

use vstd::prelude::*;
use crate::date::{Date, make_date, valid_ymd};
use crate::task::{
    AssignmentAttribute, DateAttribute, Heading, PriorityAttribute, Task, TaskAttributes,
    TaskAttributesV, TaskV, task_view, empty_dates, clone_strings,
};
use crate::text::{
    all_digits, digits_val, parse_digits, rtrim, trim, trim_str, rtrim_str, u64_to_string,
};

verus! {

/// What went wrong while parsing.
#[derive(Debug, Clone, Copy, PartialEq, Eq)]
pub enum ParseErrorKind {
    /// A line opening with `#` that is not `#`-run, space, text.
    MalformedHeading,
    /// A heading whose level skips past the current depth.
    HeadingTooDeep,
    /// A subtask line with no task line before it.
    OrphanSubtask,
    /// A priority token whose value is not an integer.
    InvalidPriority,
    /// A date token whose kind letter is not recognized.
    UnknownDateKind,
    /// A date token whose value names no day.
    InvalidDate,
}

/// A parse error: its kind, the 1-based source line where known (0
/// otherwise), and the offending text.
#[derive(Debug, Clone, PartialEq, Eq)]
pub struct ParseError {
    pub kind: ParseErrorKind,
    pub line_number: usize,
    pub text: String,
}

/// The mathematical value of a `ParseError`.
pub ghost struct ParseErrorV {
    pub kind: ParseErrorKind,
    pub line_number: nat,
    pub text: Seq<char>,
}

impl View for ParseError {
    type V = ParseErrorV;

    open spec fn view(&self) -> ParseErrorV {
        ParseErrorV {
            kind: self.kind,
            line_number: self.line_number as nat,
            text: self.text@,
        }
    }
}

/// The text of a parse error: its phrase, and the line number and the
/// offending text where the kind carries them.
pub open spec fn message_text(e: ParseErrorV) -> Seq<char> {
    match e.kind {
        ParseErrorKind::MalformedHeading => "Malformed heading: "@ + e.text,
        ParseErrorKind::HeadingTooDeep => "Heading nested too deep: "@ + e.text,
        ParseErrorKind::OrphanSubtask => "Encountered subtask without a main task on line "@
            + crate::text::dec_digits(e.line_number as int) + ": "@ + e.text,
        ParseErrorKind::InvalidPriority => "Invalid priority value: "@ + e.text,
        ParseErrorKind::UnknownDateKind => "Date attribute prefix '"@ + e.text
            + "' isn't recognized"@,
        ParseErrorKind::InvalidDate => "Invalid date attribute value: "@ + e.text,
    }
}

impl ParseError {
    /// Renders the error for a reader, as `message_text` says.
    pub fn message(&self) -> (r: String)
        ensures
            r@ == message_text(self@),
    {
        let mut r = String::new();
        match self.kind {
            ParseErrorKind::MalformedHeading => {
                r.append("Malformed heading: ");
                r.append(self.text.as_str());
                proof {
                    reveal_strlit("Malformed heading: ");
                }
            },
            ParseErrorKind::HeadingTooDeep => {
                r.append("Heading nested too deep: ");
                r.append(self.text.as_str());
                proof {
                    reveal_strlit("Heading nested too deep: ");
                }
            },
            ParseErrorKind::OrphanSubtask => {
                r.append("Encountered subtask without a main task on line ");
                let num = u64_to_string(self.line_number as u64);
                r.append(num.as_str());
                r.append(": ");
                r.append(self.text.as_str());
                proof {
                    reveal_strlit("Encountered subtask without a main task on line ");
                    reveal_strlit(": ");
                    assert(r@ =~= message_text(self@));
                }
            },
            ParseErrorKind::InvalidPriority => {
                r.append("Invalid priority value: ");
                r.append(self.text.as_str());
                proof {
                    reveal_strlit("Invalid priority value: ");
                }
            },
            ParseErrorKind::UnknownDateKind => {
                r.append("Date attribute prefix '");
                r.append(self.text.as_str());
                r.append("' isn't recognized");
                proof {
                    reveal_strlit("Date attribute prefix '");
                    reveal_strlit("' isn't recognized");
                    assert(r@ =~= message_text(self@));
                }
            },
            ParseErrorKind::InvalidDate => {
                r.append("Invalid date attribute value: ");
                r.append(self.text.as_str());
                proof {
                    reveal_strlit("Invalid date attribute value: ");
                }
            },
        }
        r
    }
}

/// The number of `#` characters at the head of `s[i..]`.
pub open spec fn hash_run(s: Seq<char>, i: int) -> int
    decreases s.len() - i,
{
    if 0 <= i < s.len() && s[i] == '#' {
        1 + hash_run(s, i + 1)
    } else {
        0
    }
}

/// The line parses as a heading: a run of `#`, then a space.
pub open spec fn heading_ok(s: Seq<char>) -> bool {
    hash_run(s, 0) < s.len() && s[hash_run(s, 0)] == ' '
}

/// The heading's level: the number of leading `#` characters.
pub open spec fn heading_level(s: Seq<char>) -> int {
    hash_run(s, 0)
}

/// The heading's name: everything after the first space.
pub open spec fn heading_name(s: Seq<char>) -> Seq<char> {
    s.skip(heading_level(s) + 1)
}

proof fn lemma_hash_run(s: Seq<char>, i: int, j: int)
    requires
        0 <= i <= j <= s.len(),
        forall|k: int| i <= k < j ==> s[k] == '#',
        j == s.len() || s[j] != '#',
    ensures
        hash_run(s, i) == j - i,
    decreases j - i,
{
    if i < j {
        lemma_hash_run(s, i + 1, j);
    }
}

/// Parses a markdown heading line: the number of leading `#` characters
/// is the level, and everything after the first space is the name. A
/// character other than `#` before the first space, or a line with no
/// space after its `#`-run, is malformed.
pub fn parse_heading(s: &str) -> (r: Result<Heading, ParseError>)
    ensures
        (r is Ok <==> heading_ok(s@)),
        r matches Ok(h) ==> h.level == heading_level(s@) && h.name@ == heading_name(s@),
        r matches Err(e) ==> e@ == (ParseErrorV {
            kind: ParseErrorKind::MalformedHeading,
            line_number: 0 as nat,
            text: s@,
        }),
{
    let n = s.unicode_len();
    let mut i: usize = 0;
    while i < n && s.get_char(i) == '#'
        invariant
            0 <= i <= n,
            n == s@.len(),
            forall|k: int| 0 <= k < i ==> s@[k] == '#',
        decreases n - i,
    {
        i = i + 1;
    }
    proof {
        lemma_hash_run(s@, 0, i as int);
    }
    if i < n && s.get_char(i) == ' ' {
        let name = s.substring_char(i + 1, n);
        Ok(Heading { level: i, name: name.to_owned() })
    } else {
        Err(ParseError {
            kind: ParseErrorKind::MalformedHeading,
            line_number: 0,
            text: s.to_owned(),
        })
    }
}

/// The heading stack after a heading of the given level and name: the
/// stack is cut back to `level - 1` entries and the name is pushed.
pub open spec fn stack_after(old: Seq<Seq<char>>, level: int, name: Seq<char>) -> Seq<Seq<char>> {
    if level > old.len() {
        old.push(name)
    } else if level >= 1 {
        old.take(level - 1).push(name)
    } else {
        Seq::empty().push(name)
    }
}

/// Applies a raw heading line to the heading stack. The new heading
/// replaces everything at its level and deeper; a heading more than one
/// level deeper than the stack fails with `HeadingTooDeep`.
pub fn handle_headings_stack(headings_stack: &mut Vec<String>, heading_raw: &str) -> (r: Result<
    (),
    ParseError,
>)
    ensures
        (r is Ok <==> (heading_ok(heading_raw@) && heading_level(heading_raw@) <= old(
            headings_stack,
        ).deep_view().len() + 1)),
        r is Ok ==> final (headings_stack).deep_view() == stack_after(
            old(headings_stack).deep_view(),
            heading_level(heading_raw@),
            heading_name(heading_raw@),
        ),
        r is Err ==> final (headings_stack).deep_view() == old(headings_stack).deep_view(),
        r matches Err(e) ==> e@.kind == (if heading_ok(heading_raw@) {
            ParseErrorKind::HeadingTooDeep
        } else {
            ParseErrorKind::MalformedHeading
        }) && e@.line_number == 0 && e@.text == heading_raw@,
{
    let heading = match parse_heading(heading_raw) {
        Ok(h) => h,
        Err(e) => {
            return Err(e);
        },
    };
    let last_level = headings_stack.len();
    let ghost old_dv = headings_stack.deep_view();
    if heading.level > last_level {
        if heading.level != last_level + 1 {
            return Err(ParseError {
                kind: ParseErrorKind::HeadingTooDeep,
                line_number: 0,
                text: heading_raw.to_owned(),
            });
        }
    } else {
        let target = if heading.level >= 1 {
            heading.level - 1
        } else {
            0
        };
        while headings_stack.len() > target
            invariant
                target <= headings_stack@.len() <= old_dv.len(),
                headings_stack.deep_view() =~= old_dv.take(headings_stack@.len() as int),
            decreases headings_stack.len(),
        {
            let ghost prev_dv = headings_stack.deep_view();
            let ghost prev_v = headings_stack@;
            headings_stack.pop();
            proof {
                let m = headings_stack@.len() as int;
                assert(headings_stack@ =~= prev_v.drop_last());
                assert forall|k: int| 0 <= k < m implies headings_stack.deep_view()[k]
                    == old_dv.take(m)[k] by {
                    assert(headings_stack.deep_view()[k] == headings_stack@[k].deep_view());
                    assert(headings_stack@[k] == prev_v[k]);
                    assert(prev_dv[k] == prev_v[k].deep_view());
                    assert(prev_dv[k] == old_dv.take(prev_v.len() as int)[k]);
                }
                assert(headings_stack.deep_view() =~= old_dv.take(m));
            }
        }
        proof {
            assert(headings_stack.deep_view() =~= old_dv.take(target as int));
        }
    }
    headings_stack.push(heading.name);
    proof {
        let dv = headings_stack.deep_view();
        let want = stack_after(old_dv, heading_level(heading_raw@), heading_name(heading_raw@));
        assert forall|k: int| 0 <= k < dv.len() implies dv[k] == want[k] by {}
        assert(dv =~= want);
    }
    Ok(())
}

/// The checkbox state at the head of a string: `[ ]` is not done,
/// `[x]` or `[X]` is done, anything else is unrecognized.
pub open spec fn checkbox_spec(s: Seq<char>) -> Option<bool> {
    if s.len() >= 3 && s[0] == '[' && s[1] == ' ' && s[2] == ']' {
        Some(false)
    } else if s.len() >= 3 && s[0] == '[' && (s[1] == 'x' || s[1] == 'X') && s[2] == ']' {
        Some(true)
    } else {
        None
    }
}

/// Reads the checkbox state at the head of a string, as `checkbox_spec`
/// says.
pub fn md_checkbox(s: &str) -> (r: Option<bool>)
    ensures
        r == checkbox_spec(s@),
{
    let n = s.unicode_len();
    if n < 3 || s.get_char(0) != '[' || s.get_char(2) != ']' {
        return None;
    }
    let c = s.get_char(1);
    if c == ' ' {
        Some(false)
    } else if c == 'x' || c == 'X' {
        Some(true)
    } else {
        None
    }
}

/// An unsigned decimal integer as `u32` reads it: an optional `+`, then
/// digits, rejecting empty bodies and overflow.
pub open spec fn parse_u32_spec(s: Seq<char>) -> Option<u32> {
    let body = if s.len() > 0 && s[0] == '+' {
        s.skip(1)
    } else {
        s
    };
    if body.len() > 0 && all_digits(body) && digits_val(body) <= u32::MAX {
        Some(digits_val(body) as u32)
    } else {
        None
    }
}

/// A signed decimal integer as `i32` reads it: an optional sign, then
/// digits, rejecting empty bodies and overflow.
pub open spec fn parse_i32_spec(s: Seq<char>) -> Option<i32> {
    if s.len() > 0 && s[0] == '-' {
        let body = s.skip(1);
        if body.len() > 0 && all_digits(body) && digits_val(body) <= 0x8000_0000 {
            Some((-digits_val(body)) as i32)
        } else {
            None
        }
    } else {
        let body = if s.len() > 0 && s[0] == '+' {
            s.skip(1)
        } else {
            s
        };
        if body.len() > 0 && all_digits(body) && digits_val(body) <= 0x7fff_ffff {
            Some(digits_val(body) as i32)
        } else {
            None
        }
    }
}

/// An unsigned decimal integer as `usize` reads it.
pub open spec fn parse_usize_spec(s: Seq<char>) -> Option<usize> {
    let body = if s.len() > 0 && s[0] == '+' {
        s.skip(1)
    } else {
        s
    };
    if body.len() > 0 && all_digits(body) && digits_val(body) <= usize::MAX {
        Some(digits_val(body) as usize)
    } else {
        None
    }
}

/// Parses a `u32`, as `parse_u32_spec` says.
pub fn parse_u32(s: &str) -> (r: Option<u32>)
    ensures
        r == parse_u32_spec(s@),
{
    let n = s.unicode_len();
    let from: usize = if n > 0 && s.get_char(0) == '+' {
        1
    } else {
        0
    };
    proof {
        if from == 0 {
            assert(s@.skip(0) =~= s@);
        }
    }
    match parse_digits(s, from, 0xffff_ffffu64) {
        Some(v) => Some(v as u32),
        None => None,
    }
}

/// Parses an `i32`, as `parse_i32_spec` says.
pub fn parse_i32(s: &str) -> (r: Option<i32>)
    ensures
        r == parse_i32_spec(s@),
{
    let n = s.unicode_len();
    if n > 0 && s.get_char(0) == '-' {
        match parse_digits(s, 1, 0x8000_0000u64) {
            Some(v) => {
                if v == 0x8000_0000u64 {
                    Some(i32::MIN)
                } else {
                    Some(-(v as i32))
                }
            },
            None => None,
        }
    } else {
        let from: usize = if n > 0 && s.get_char(0) == '+' {
            1
        } else {
            0
        };
        proof {
            if from == 0 {
                assert(s@.skip(0) =~= s@);
            }
        }
        match parse_digits(s, from, 0x7fff_ffffu64) {
            Some(v) => Some(v as i32),
            None => None,
        }
    }
}

/// Parses a `usize`, as `parse_usize_spec` says.
pub fn parse_usize(s: &str) -> (r: Option<usize>)
    ensures
        r == parse_usize_spec(s@),
{
    let n = s.unicode_len();
    let from: usize = if n > 0 && s.get_char(0) == '+' {
        1
    } else {
        0
    };
    proof {
        if from == 0 {
            assert(s@.skip(0) =~= s@);
        }
    }
    match parse_digits(s, from, usize::MAX as u64) {
        Some(v) => Some(v as usize),
        None => None,
    }
}

/// The first position at or after `i` holding `c`.
pub open spec fn find_from(s: Seq<char>, c: char, i: int) -> Option<int>
    decreases s.len() - i,
{
    if !(0 <= i < s.len()) {
        None
    } else if s[i] == c {
        Some(i)
    } else {
        find_from(s, c, i + 1)
    }
}

pub(crate) proof fn lemma_find_from_bounds(s: Seq<char>, c: char, i: int)
    requires
        0 <= i,
    ensures
        find_from(s, c, i) matches Some(j) ==> i <= j < s.len() && s[j] == c,
    decreases s.len() - i,
{
    if 0 <= i < s.len() && s[i] != c {
        lemma_find_from_bounds(s, c, i + 1);
    }
}

/// Finds the first `c` at or after `from`, as `find_from` says.
pub(crate) fn find_char_from(s: &str, c: char, from: usize) -> (r: Option<usize>)
    requires
        from <= s@.len(),
    ensures
        match r {
            Some(j) => find_from(s@, c, from as int) == Some(j as int),
            None => find_from(s@, c, from as int) is None,
        },
{
    let n = s.unicode_len();
    let mut j = from;
    while j < n
        invariant
            from <= j <= n,
            n == s@.len(),
            find_from(s@, c, from as int) == find_from(s@, c, j as int),
        decreases n - j,
    {
        if s.get_char(j) == c {
            return Some(j);
        }
        j = j + 1;
    }
    None
}

/// The month, day and optional year fields of a date literal: `M/D`
/// gives two fields, `M/D/Y` three; any other number of `/`-separated
/// fields is rejected.
pub open spec fn date_fields(s: Seq<char>) -> Option<(Seq<char>, Seq<char>, Option<Seq<char>>)> {
    match find_from(s, '/', 0) {
        None => None,
        Some(j1) => match find_from(s, '/', j1 + 1) {
            None => Some((s.take(j1), s.skip(j1 + 1), None)),
            Some(j2) => match find_from(s, '/', j2 + 1) {
                None => Some((s.take(j1), s.subrange(j1 + 1, j2), Some(s.skip(j2 + 1)))),
                Some(_) => None,
            },
        },
    }
}

/// The date a literal names, against `today`: `M/D/Y` or `M/D` (the year
/// is then today's); fields must be integers naming an existing day.
pub open spec fn parse_date_spec(s: Seq<char>, today: Date) -> Option<Date> {
    match date_fields(s) {
        None => None,
        Some((mf, df, yf)) => {
            let m = parse_u32_spec(mf);
            let d = parse_u32_spec(df);
            let y = match yf {
                Some(f) => parse_i32_spec(f),
                None => Some(today.year),
            };
            if m is Some && d is Some && y is Some && valid_ymd(
                y->0 as int,
                m->0 as int,
                d->0 as int,
            ) {
                Some(Date { year: y->0, month: m->0, day: d->0 })
            } else {
                None
            }
        },
    }
}

/// Parses a date literal, as `parse_date_spec` says.
fn parse_date(date_str: &str, today: &Date) -> (r: Option<Date>)
    ensures
        r == parse_date_spec(date_str@, *today),
{
    let n = date_str.unicode_len();
    let j1 = match find_char_from(date_str, '/', 0) {
        Some(j) => j,
        None => {
            return None;
        },
    };
    proof {
        lemma_find_from_bounds(date_str@, '/', 0);
    }
    let (mf, df, yf): (&str, &str, Option<&str>) = match find_char_from(date_str, '/', j1 + 1) {
        None => {
            (date_str.substring_char(0, j1), date_str.substring_char(j1 + 1, n), None)
        },
        Some(j2) => {
            proof {
                lemma_find_from_bounds(date_str@, '/', j1 + 1);
            }
            match find_char_from(date_str, '/', j2 + 1) {
                None => {
                    (
                        date_str.substring_char(0, j1),
                        date_str.substring_char(j1 + 1, j2),
                        Some(date_str.substring_char(j2 + 1, n)),
                    )
                },
                Some(_) => {
                    return None;
                },
            }
        },
    };
    let m = match parse_u32(mf) {
        Some(v) => v,
        None => {
            return None;
        },
    };
    let d = match parse_u32(df) {
        Some(v) => v,
        None => {
            return None;
        },
    };
    let y = match yf {
        Some(f) => match parse_i32(f) {
            Some(v) => v,
            None => {
                return None;
            },
        },
        None => today.year,
    };
    make_date(y, m, d)
}

/// An inline attribute token: its prefix (`@`, `!`, or a kind letter and
/// `:`), its value, and the position just past the token and its one
/// trailing space, if any.
pub ghost struct AttrToken {
    pub prefix: Seq<char>,
    pub value: Seq<char>,
    pub end: int,
}

/// The first closing bracket at or after `i`, with no newline before it.
pub open spec fn close_pos(s: Seq<char>, i: int) -> Option<int>
    decreases s.len() - i,
{
    if !(0 <= i < s.len()) {
        None
    } else if s[i] == ']' {
        Some(i)
    } else if s[i] == '\n' {
        None
    } else {
        close_pos(s, i + 1)
    }
}

/// One past the token closed at `j`, taking one following space with it.
pub open spec fn token_end(s: Seq<char>, j: int) -> int {
    if j + 1 < s.len() && s[j + 1] == ' ' {
        j + 2
    } else {
        j + 1
    }
}

/// The attribute token starting at `i`, if one does: `[`, then either any
/// character followed by `:` or a single `@` or `!`, then the value up to
/// the nearest `]`.
pub open spec fn token_at(s: Seq<char>, i: int) -> Option<AttrToken> {
    if !(0 <= i < s.len() && s[i] == '[') {
        None
    } else if i + 2 < s.len() && s[i + 1] != '\n' && s[i + 2] == ':' {
        match close_pos(s, i + 3) {
            None => None,
            Some(j) => Some(
                AttrToken {
                    prefix: s.subrange(i + 1, i + 3),
                    value: s.subrange(i + 3, j),
                    end: token_end(s, j),
                },
            ),
        }
    } else if i + 1 < s.len() && (s[i + 1] == '@' || s[i + 1] == '!') {
        match close_pos(s, i + 2) {
            None => None,
            Some(j) => Some(
                AttrToken {
                    prefix: seq![s[i + 1]],
                    value: s.subrange(i + 2, j),
                    end: token_end(s, j),
                },
            ),
        }
    } else {
        None
    }
}

proof fn lemma_close_pos_bounds(s: Seq<char>, i: int)
    requires
        0 <= i,
    ensures
        close_pos(s, i) matches Some(j) ==> i <= j < s.len() && s[j] == ']',
    decreases s.len() - i,
{
    if 0 <= i < s.len() && s[i] != ']' && s[i] != '\n' {
        lemma_close_pos_bounds(s, i + 1);
    }
}

/// A found token reaches past its opening bracket and no further than the
/// end of the string.
pub proof fn lemma_token_at_bounds(s: Seq<char>, i: int)
    ensures
        token_at(s, i) matches Some(t) ==> i < t.end <= s.len(),
{
    if 0 <= i < s.len() && s[i] == '[' {
        if i + 2 < s.len() && s[i + 1] != '\n' && s[i + 2] == ':' {
            lemma_close_pos_bounds(s, i + 3);
        } else if i + 1 < s.len() && (s[i + 1] == '@' || s[i + 1] == '!') {
            lemma_close_pos_bounds(s, i + 2);
        }
    }
}

/// The tokens of `s` from `i` on, scanned left to right without overlap.
pub open spec fn scan_tokens(s: Seq<char>, i: int) -> Seq<AttrToken>
    decreases s.len() - i,
{
    if !(0 <= i < s.len()) {
        Seq::empty()
    } else {
        match token_at(s, i) {
            Some(t) => seq![t] + scan_tokens(
                s,
                if i < t.end <= s.len() {
                    t.end
                } else {
                    i + 1
                },
            ),
            None => scan_tokens(s, i + 1),
        }
    }
}

/// What remains of `s` from `i` on once every scanned token is removed.
pub open spec fn residual_text(s: Seq<char>, i: int) -> Seq<char>
    decreases s.len() - i,
{
    if !(0 <= i < s.len()) {
        Seq::empty()
    } else {
        match token_at(s, i) {
            Some(t) => residual_text(
                s,
                if i < t.end <= s.len() {
                    t.end
                } else {
                    i + 1
                },
            ),
            None => seq![s[i]] + residual_text(s, i + 1),
        }
    }
}

/// The attribute set with nothing set.
pub open spec fn empty_attrs_v() -> TaskAttributesV {
    TaskAttributesV { date_attr: empty_dates(), assn: None, priority: None }
}

/// One attribute token applied to an attribute set: `@` assigns, `!` sets
/// the priority, and a kind letter with `:` sets the named date, `t`
/// standing for today. Later tokens overwrite earlier ones per field.
pub open spec fn apply_attr(
    a: TaskAttributesV,
    prefix: Seq<char>,
    value: Seq<char>,
    today: Date,
) -> Result<TaskAttributesV, (ParseErrorKind, Seq<char>)> {
    if prefix == seq!['@'] {
        Ok(TaskAttributesV { assn: Some(value), ..a })
    } else if prefix == seq!['!'] {
        match parse_i32_spec(value) {
            Some(p) => Ok(TaskAttributesV { priority: Some(p), ..a }),
            None => Err((ParseErrorKind::InvalidPriority, value)),
        }
    } else {
        let kc = prefix[0];
        let dv = if value == seq!['t'] {
            Some(today)
        } else {
            parse_date_spec(value, today)
        };
        match dv {
            None => Err((ParseErrorKind::InvalidDate, value)),
            Some(d) => {
                if kc == 'c' {
                    Ok(
                        TaskAttributesV {
                            date_attr: DateAttribute { created_date: Some(d), ..a.date_attr },
                            ..a
                        },
                    )
                } else if kc == 'd' {
                    Ok(
                        TaskAttributesV {
                            date_attr: DateAttribute { due_date: Some(d), ..a.date_attr },
                            ..a
                        },
                    )
                } else if kc == 'r' {
                    Ok(
                        TaskAttributesV {
                            date_attr: DateAttribute { reminder_date: Some(d), ..a.date_attr },
                            ..a
                        },
                    )
                } else if kc == 'f' {
                    Ok(
                        TaskAttributesV {
                            date_attr: DateAttribute { finished_date: Some(d), ..a.date_attr },
                            ..a
                        },
                    )
                } else {
                    Err((ParseErrorKind::UnknownDateKind, seq![kc]))
                }
            },
        }
    }
}

/// A token list applied left to right; the first failing token decides.
pub open spec fn apply_tokens(
    a: TaskAttributesV,
    toks: Seq<AttrToken>,
    today: Date,
) -> Result<TaskAttributesV, (ParseErrorKind, Seq<char>)>
    decreases toks.len(),
{
    if toks.len() == 0 {
        Ok(a)
    } else {
        match apply_attr(a, toks[0].prefix, toks[0].value, today) {
            Ok(a2) => apply_tokens(a2, toks.drop_first(), today),
            Err(e) => Err(e),
        }
    }
}

/// Extraction of the attributes of a raw title: every scanned token
/// applied in order, and the residual title right-trimmed.
pub open spec fn extract_spec(title: Seq<char>, today: Date) -> Result<
    (TaskAttributesV, Seq<char>),
    (ParseErrorKind, Seq<char>),
> {
    match apply_tokens(empty_attrs_v(), scan_tokens(title, 0), today) {
        Ok(a) => Ok((a, rtrim(residual_text(title, 0)))),
        Err(e) => Err(e),
    }
}

/// Finds the attribute token starting at `i`: the prefix length, the
/// closing bracket, and the token's end, as `token_at` says.
fn match_token_at(s: &str, i: usize) -> (r: Option<(usize, usize, usize)>)
    requires
        i < s@.len(),
    ensures
        match r {
            Some((plen, j, end)) => {
                &&& (1 <= plen <= 2)
                &&& i + 1 + plen <= j < s@.len()
                &&& i < end <= s@.len()
                &&& token_at(s@, i as int) == Some(
                    AttrToken {
                        prefix: s@.subrange(i + 1, i + 1 + plen),
                        value: s@.subrange(i + 1 + plen, j as int),
                        end: end as int,
                    },
                )
            },
            None => token_at(s@, i as int) is None,
        },
{
    let n = s.unicode_len();
    if s.get_char(i) != '[' {
        return None;
    }
    let plen: usize = if n - i > 2 && s.get_char(i + 1) != '\n' && s.get_char(i + 2) == ':' {
        2
    } else if n - i > 1 && (s.get_char(i + 1) == '@' || s.get_char(i + 1) == '!') {
        1
    } else {
        return None;
    };
    let vstart = i + 1 + plen;
    let mut j = vstart;
    while j < n
        invariant
            vstart <= j <= n,
            n == s@.len(),
            i as int + 1 + plen as int == vstart as int,
            i < vstart <= n,
            s@[i as int] == '[',
            1 <= plen <= 2,
            plen == 2 ==> i + 2 < n && s@[i as int + 1] != '\n' && s@[i as int + 2] == ':',
            plen == 1 ==> i + 1 < n && (s@[i as int + 1] == '@' || s@[i as int + 1] == '!') && !(
            i + 2 < n && s@[i as int + 1] != '\n' && s@[i as int + 2] == ':'),
            close_pos(s@, vstart as int) == close_pos(s@, j as int),
        decreases n - j,
    {
        let c = s.get_char(j);
        if c == ']' {
            let end = if j + 1 < n && s.get_char(j + 1) == ' ' {
                j + 2
            } else {
                j + 1
            };
            proof {
                assert(close_pos(s@, vstart as int) == Some(j as int));
                if plen == 1 {
                    assert(s@.subrange(i + 1, i + 2) =~= seq![s@[i as int + 1]]);
                }
            }
            return Some((plen, j, end));
        }
        if c == '\n' {
            return None;
        }
        j = j + 1;
    }
    None
}

/// Parses one attribute token and stores it in the attribute set, as
/// `apply_attr` says.
pub fn assign_task_attr(
    prefix: &str,
    value: &str,
    task_attr: &mut TaskAttributes,
    today: &Date,
) -> (r: Result<(), ParseError>)
    requires
        prefix@.len() >= 1,
    ensures
        match apply_attr(old(task_attr)@, prefix@, value@, *today) {
            Ok(a2) => r is Ok && final (task_attr)@ == a2,
            Err(e) => r matches Err(pe) && pe@.kind == e.0 && pe@.text == e.1 && pe@.line_number
                == 0 && *final (task_attr) == *old(task_attr),
        },
{
    let plen = prefix.unicode_len();
    let c0 = prefix.get_char(0);
    if plen == 1 && c0 == '@' {
        proof {
            assert(prefix@ =~= seq!['@']);
        }
        task_attr.assn_attr = Some(AssignmentAttribute { assigned_to: value.to_owned() });
        Ok(())
    } else if plen == 1 && c0 == '!' {
        proof {
            assert(prefix@ =~= seq!['!']);
        }
        match parse_i32(value) {
            Some(p) => {
                task_attr.priority_attr = Some(PriorityAttribute { priority: p });
                Ok(())
            },
            None => Err(ParseError {
                kind: ParseErrorKind::InvalidPriority,
                line_number: 0,
                text: value.to_owned(),
            }),
        }
    } else {
        proof {
            if plen == 1 {
                assert(prefix@ =~= seq![c0]);
            }
            assert(prefix@ != seq!['@'] && prefix@ != seq!['!']) by {
                if plen != 1 {
                    assert(prefix@.len() != 1);
                } else {
                    assert(prefix@[0] == c0);
                }
            }
        }
        let vlen = value.unicode_len();
        let date_value: Option<Date> = if vlen == 1 {
            let vc = value.get_char(0);
            if vc == 't' {
                proof {
                    assert(value@ =~= seq!['t']);
                }
                Some(*today)
            } else {
                proof {
                    assert(value@ != seq!['t']);
                }
                parse_date(value, today)
            }
        } else {
            proof {
                assert(value@ != seq!['t']);
            }
            parse_date(value, today)
        };
        match date_value {
            None => Err(ParseError {
                kind: ParseErrorKind::InvalidDate,
                line_number: 0,
                text: value.to_owned(),
            }),
            Some(d) => {
                if c0 == 'c' {
                    task_attr.date_attr.created_date = Some(d);
                    Ok(())
                } else if c0 == 'd' {
                    task_attr.date_attr.due_date = Some(d);
                    Ok(())
                } else if c0 == 'r' {
                    task_attr.date_attr.reminder_date = Some(d);
                    Ok(())
                } else if c0 == 'f' {
                    task_attr.date_attr.finished_date = Some(d);
                    Ok(())
                } else {
                    let kc = prefix.substring_char(0, 1);
                    proof {
                        assert(kc@ =~= seq![c0]);
                    }
                    Err(ParseError {
                        kind: ParseErrorKind::UnknownDateKind,
                        line_number: 0,
                        text: kc.to_owned(),
                    })
                }
            },
        }
    }
}

/// Extracts every inline attribute token from a raw task title, as
/// `extract_spec` says: the parsed attributes, and the title with the
/// tokens removed and trailing whitespace dropped.
pub fn extract_task_attrs(raw_task_title: &str, today: &Date) -> (r: Result<
    (TaskAttributes, String),
    ParseError,
>)
    ensures
        match extract_spec(raw_task_title@, *today) {
            Ok(p) => r matches Ok(q) && q.0@ == p.0 && q.1@ == p.1,
            Err(e) => r matches Err(pe) && pe@.kind == e.0 && pe@.text == e.1 && pe@.line_number
                == 0,
        },
{
    let ghost s = raw_task_title@;
    let ghost goal = apply_tokens(empty_attrs_v(), scan_tokens(s, 0), *today);
    let n = raw_task_title.unicode_len();
    let mut attrs = TaskAttributes::default();
    let mut out = String::new();
    let mut i: usize = 0;
    while i < n
        invariant
            0 <= i <= n,
            n == s.len(),
            s == raw_task_title@,
            goal == apply_tokens(empty_attrs_v(), scan_tokens(s, 0), *today),
            apply_tokens(attrs@, scan_tokens(s, i as int), *today) == goal,
            out@ + residual_text(s, i as int) == residual_text(s, 0),
        decreases n - i,
    {
        match match_token_at(raw_task_title, i) {
            Some((plen, j, end)) => {
                let ghost t = token_at(s, i as int)->0;
                proof {
                    assert(scan_tokens(s, i as int) =~= seq![t] + scan_tokens(s, end as int));
                    assert((seq![t] + scan_tokens(s, end as int)).drop_first() =~= scan_tokens(
                        s,
                        end as int,
                    ));
                    assert((seq![t] + scan_tokens(s, end as int))[0] == t);
                    assert(residual_text(s, i as int) == residual_text(s, end as int));
                }
                let prefix = raw_task_title.substring_char(i + 1, i + 1 + plen);
                let value = raw_task_title.substring_char(i + 1 + plen, j);
                match assign_task_attr(prefix, value, &mut attrs, today) {
                    Ok(()) => {
                        i = end;
                    },
                    Err(e) => {
                        return Err(e);
                    },
                }
            },
            None => {
                let piece = raw_task_title.substring_char(i, i + 1);
                out.append(piece);
                proof {
                    assert(piece@ =~= seq![s[i as int]]);
                    assert(residual_text(s, i as int) =~= seq![s[i as int]] + residual_text(
                        s,
                        i as int + 1,
                    ));
                    assert(out@ + residual_text(s, i as int + 1) =~= residual_text(s, 0));
                }
                i = i + 1;
            },
        }
    }
    proof {
        assert(scan_tokens(s, n as int) =~= Seq::<AttrToken>::empty());
        assert(residual_text(s, n as int) =~= Seq::<char>::empty());
        assert(out@ =~= out@ + residual_text(s, n as int));
        assert(goal == Ok::<TaskAttributesV, (ParseErrorKind, Seq<char>)>(attrs@));
    }
    let trimmed = rtrim_str(out.as_str());
    Ok((attrs, trimmed))
}

/// Parses a raw task title into a fresh task: its attributes extracted
/// and its residual text as title, every other field at its default.
pub fn parse_task_title(title: &str, today: &Date) -> (r: Result<Task, ParseError>)
    ensures
        match extract_spec(title@, *today) {
            Ok(p) => r matches Ok(task) && task@.attrs == p.0 && task@.title == p.1
                && task@.path.len() == 0 && task@.done == false && task@.description.len() == 0
                && task@.subtasks.len() == 0 && task@.file_path.len() == 0 && task@.line_number
                == 0,
            Err(e) => r matches Err(pe) && pe@.kind == e.0 && pe@.text == e.1 && pe@.line_number
                == 0,
        },
{
    match extract_task_attrs(title, today) {
        Ok((attrs, task_title)) => {
            let mut task = Task::default();
            task.title = task_title;
            task.attrs = attrs;
            proof {
                assert(task@.subtasks.len() == 0);
            }
            Ok(task)
        },
        Err(e) => Err(e),
    }
}

/// A checkbox line at offset `k`: `- [<mark>] ` with the mark a space,
/// `x` or `X`.
pub open spec fn is_task_line_at(l: Seq<char>, k: int) -> bool {
    &&& l.len() >= k + 6
    &&& l[k] == '-'
    &&& l[k + 1] == ' '
    &&& l[k + 2] == '['
    &&& (l[k + 3] == ' ' || l[k + 3] == 'x' || l[k + 3] == 'X')
    &&& l[k + 4] == ']'
    &&& l[k + 5] == ' '
}

/// A top-level task line: a checkbox at column 0.
pub open spec fn is_task_line(l: Seq<char>) -> bool {
    is_task_line_at(l, 0)
}

/// The number of leading spaces and tabs of `l[i..]`.
pub open spec fn indent_len(l: Seq<char>, i: int) -> int
    decreases l.len() - i,
{
    if 0 <= i < l.len() && (l[i] == ' ' || l[i] == '\t') {
        1 + indent_len(l, i + 1)
    } else {
        0
    }
}

/// A subtask line: leading whitespace, then a checkbox.
pub open spec fn is_subtask_line(l: Seq<char>) -> bool {
    indent_len(l, 0) >= 1 && is_task_line_at(l, indent_len(l, 0))
}

/// The checkbox mark at offset `k` marks the task done.
pub open spec fn done_at(l: Seq<char>, k: int) -> bool {
    l[k + 3] == 'x' || l[k + 3] == 'X'
}

/// The parser's state: the heading stack, the task being accumulated, and
/// the finished tasks in document order.
pub ghost struct ParseState {
    pub stack: Seq<Seq<char>>,
    pub current: Option<TaskV>,
    pub tasks: Seq<TaskV>,
}

/// The state before any line: empty stack, no task.
pub open spec fn empty_state() -> ParseState {
    ParseState { stack: Seq::empty(), current: None, tasks: Seq::empty() }
}

/// Closes the accumulating task, if any, appending it to the output.
pub open spec fn finalize_state(st: ParseState) -> ParseState {
    match st.current {
        Some(t) => ParseState { stack: st.stack, current: None, tasks: st.tasks.push(t) },
        None => st,
    }
}

/// A task fresh from its checkbox line: the given path, title, state and
/// attributes, an empty description, no subtasks, no provenance but the
/// line number.
pub open spec fn new_task_v(
    stack: Seq<Seq<char>>,
    title: Seq<char>,
    done: bool,
    attrs: TaskAttributesV,
    lineno: nat,
) -> TaskV {
    TaskV {
        path: stack,
        title,
        done,
        description: Seq::empty(),
        subtasks: Seq::empty(),
        attrs,
        file_path: Seq::empty(),
        line_number: lineno,
    }
}

/// A subtask's attributes: its own, with unset dates filled from the
/// parent's; priority and assignment are not inherited.
pub open spec fn merge_attrs_v(child: TaskAttributesV, parent: TaskAttributesV) -> TaskAttributesV {
    TaskAttributesV {
        date_attr: DateAttribute {
            created_date: if child.date_attr.created_date is None {
                parent.date_attr.created_date
            } else {
                child.date_attr.created_date
            },
            due_date: if child.date_attr.due_date is None {
                parent.date_attr.due_date
            } else {
                child.date_attr.due_date
            },
            reminder_date: if child.date_attr.reminder_date is None {
                parent.date_attr.reminder_date
            } else {
                child.date_attr.reminder_date
            },
            finished_date: if child.date_attr.finished_date is None {
                parent.date_attr.finished_date
            } else {
                child.date_attr.finished_date
            },
        },
        assn: child.assn,
        priority: child.priority,
    }
}

/// One line of the document applied to the parser state, `lineno` being
/// its 1-based number. Headings drive the stack and close the current
/// task; checkbox lines open a task or append a subtask; other lines feed
/// the current task's description or are ignored.
pub open spec fn step_line(st: ParseState, l: Seq<char>, lineno: nat, today: Date) -> Result<
    ParseState,
    ParseErrorV,
> {
    if l.len() > 0 && l[0] == '#' {
        if !(heading_ok(l) && heading_level(l) <= st.stack.len() + 1) {
            Err(
                ParseErrorV {
                    kind: if heading_ok(l) {
                        ParseErrorKind::HeadingTooDeep
                    } else {
                        ParseErrorKind::MalformedHeading
                    },
                    line_number: 0,
                    text: l,
                },
            )
        } else {
            let st2 = finalize_state(st);
            Ok(ParseState { stack: stack_after(st.stack, heading_level(l), heading_name(l)), ..st2 })
        }
    } else if is_task_line(l) {
        match extract_spec(l.skip(6), today) {
            Err(e) => Err(ParseErrorV { kind: e.0, line_number: 0, text: e.1 }),
            Ok(p) => {
                let st2 = finalize_state(st);
                Ok(
                    ParseState {
                        current: Some(new_task_v(st.stack, p.1, done_at(l, 0), p.0, lineno)),
                        ..st2
                    },
                )
            },
        }
    } else if is_subtask_line(l) {
        match st.current {
            None => Err(
                ParseErrorV { kind: ParseErrorKind::OrphanSubtask, line_number: lineno, text: l },
            ),
            Some(cur) => {
                let k = indent_len(l, 0);
                match extract_spec(l.skip(k + 6), today) {
                    Err(e) => Err(ParseErrorV { kind: e.0, line_number: 0, text: e.1 }),
                    Ok(p) => {
                        let sub = TaskV {
                            attrs: merge_attrs_v(p.0, cur.attrs),
                            ..new_task_v(st.stack, p.1, done_at(l, k), p.0, lineno)
                        };
                        Ok(
                            ParseState {
                                current: Some(TaskV { subtasks: cur.subtasks.push(sub), ..cur }),
                                ..st
                            },
                        )
                    },
                }
            },
        }
    } else if l.len() == 0 && st.current is None {
        Ok(st)
    } else {
        match st.current {
            Some(cur) => Ok(
                ParseState {
                    current: Some(
                        TaskV {
                            description: if cur.description.len() > 0 {
                                cur.description + seq!['\n'] + l
                            } else {
                                l
                            },
                            ..cur
                        },
                    ),
                    ..st
                },
            ),
            None => Ok(st),
        }
    }
}

/// The lines from `i` on applied in order; the first failing line decides.
pub open spec fn run_lines(st: ParseState, lines: Seq<Seq<char>>, i: int, today: Date) -> Result<
    ParseState,
    ParseErrorV,
>
    decreases lines.len() - i,
{
    if !(0 <= i < lines.len()) {
        Ok(st)
    } else {
        match step_line(st, lines[i], (i + 1) as nat, today) {
            Ok(st2) => run_lines(st2, lines, i + 1, today),
            Err(e) => Err(e),
        }
    }
}

/// A task with its description trimmed of leading and trailing
/// whitespace.
pub open spec fn trim_desc(t: TaskV) -> TaskV {
    TaskV { description: trim(t.description), ..t }
}

/// Every task's description trimmed.
pub open spec fn trim_all(ts: Seq<TaskV>) -> Seq<TaskV> {
    ts.map_values(|t: TaskV| trim_desc(t))
}

/// The whole document parse: every line applied to the empty state, the
/// last task closed, and every description trimmed.
pub open spec fn parse_markdown_spec(lines: Seq<Seq<char>>, today: Date) -> Result<
    Seq<TaskV>,
    ParseErrorV,
> {
    match run_lines(empty_state(), lines, 0, today) {
        Ok(st) => Ok(trim_all(finalize_state(st).tasks)),
        Err(e) => Err(e),
    }
}

/// Every task of the state, and the task being accumulated, holds only
/// dates that name existing days.
pub open spec fn state_wf(st: ParseState) -> bool {
    &&& (st.current matches Some(t) ==> t.wf())
    &&& (forall|i: int| 0 <= i < st.tasks.len() ==> (#[trigger] st.tasks[i]).wf())
}

proof fn lemma_apply_attr_wf(a: TaskAttributesV, prefix: Seq<char>, value: Seq<char>, today: Date)
    requires
        a.date_attr.wf(),
        today.wf(),
    ensures
        apply_attr(a, prefix, value, today) matches Ok(a2) ==> a2.date_attr.wf(),
{
}

proof fn lemma_apply_tokens_wf(a: TaskAttributesV, toks: Seq<AttrToken>, today: Date)
    requires
        a.date_attr.wf(),
        today.wf(),
    ensures
        apply_tokens(a, toks, today) matches Ok(a2) ==> a2.date_attr.wf(),
    decreases toks.len(),
{
    if toks.len() > 0 {
        match apply_attr(a, toks[0].prefix, toks[0].value, today) {
            Ok(a2) => {
                lemma_apply_attr_wf(a, toks[0].prefix, toks[0].value, today);
                lemma_apply_tokens_wf(a2, toks.drop_first(), today);
            },
            Err(_) => {},
        }
    }
}

proof fn lemma_extract_wf(title: Seq<char>, today: Date)
    requires
        today.wf(),
    ensures
        extract_spec(title, today) matches Ok(p) ==> p.0.date_attr.wf(),
{
    lemma_apply_tokens_wf(empty_attrs_v(), scan_tokens(title, 0), today);
}

proof fn lemma_step_wf(st: ParseState, l: Seq<char>, lineno: nat, today: Date)
    requires
        state_wf(st),
        today.wf(),
    ensures
        step_line(st, l, lineno, today) matches Ok(st2) ==> state_wf(st2),
{
    let r = step_line(st, l, lineno, today);
    if r is Ok {
        let st2 = r->Ok_0;
        if l.len() > 0 && l[0] == '#' {
            let fin = finalize_state(st);
            assert forall|i: int| 0 <= i < fin.tasks.len() implies (#[trigger] fin.tasks[i]).wf()
                by {}
        } else if is_task_line(l) {
            lemma_extract_wf(l.skip(6), today);
            let p = extract_spec(l.skip(6), today)->Ok_0;
            let t = new_task_v(st.stack, p.1, done_at(l, 0), p.0, lineno);
            assert(t.wf());
        } else if is_subtask_line(l) && st.current is Some {
            let cur = st.current->0;
            let k = indent_len(l, 0);
            if extract_spec(l.skip(k + 6), today) is Ok {
                lemma_extract_wf(l.skip(k + 6), today);
                let p = extract_spec(l.skip(k + 6), today)->Ok_0;
                let sub = TaskV {
                    attrs: merge_attrs_v(p.0, cur.attrs),
                    ..new_task_v(st.stack, p.1, done_at(l, k), p.0, lineno)
                };
                assert(sub.attrs.date_attr.wf());
                assert(sub.wf());
                let cur2 = TaskV { subtasks: cur.subtasks.push(sub), ..cur };
                assert forall|i: int| 0 <= i < cur2.subtasks.len() implies (
                #[trigger] cur2.subtasks[i]).wf() by {
                    if i < cur.subtasks.len() {
                        assert(cur2.subtasks[i] == cur.subtasks[i]);
                    } else {
                        assert(cur2.subtasks[i] == sub);
                    }
                }
                assert(cur2.wf());
            }
        } else if st.current is Some && !(l.len() == 0 && st.current is None) {
            let cur = st.current->0;
            let cur2 = st2.current->0;
            assert(cur2.attrs == cur.attrs && cur2.subtasks == cur.subtasks);
            assert(cur2.wf());
        }
    }
}

proof fn lemma_run_wf(st: ParseState, lines: Seq<Seq<char>>, i: int, today: Date)
    requires
        state_wf(st),
        today.wf(),
    ensures
        run_lines(st, lines, i, today) matches Ok(st2) ==> state_wf(st2),
    decreases lines.len() - i,
{
    if 0 <= i < lines.len() {
        match step_line(st, lines[i], (i + 1) as nat, today) {
            Ok(st2) => {
                lemma_step_wf(st, lines[i], (i + 1) as nat, today);
                lemma_run_wf(st2, lines, i + 1, today);
            },
            Err(_) => {},
        }
    }
}

/// Parsing builds only well-formed tasks: with a real calendar day for
/// `today`, every task a successful parse returns, subtasks included,
/// holds only dates that name existing days — what the visibility and
/// sort-key operations ask of their input.
pub proof fn lemma_parse_markdown_wf(lines: Seq<Seq<char>>, today: Date)
    requires
        today.wf(),
    ensures
        parse_markdown_spec(lines, today) matches Ok(ts) ==> forall|i: int|
            0 <= i < ts.len() ==> (#[trigger] ts[i]).wf(),
{
    lemma_run_wf(empty_state(), lines, 0, today);
    if run_lines(empty_state(), lines, 0, today) is Ok {
        let st = run_lines(empty_state(), lines, 0, today)->Ok_0;
        let fin = finalize_state(st);
        let ts = trim_all(fin.tasks);
        assert forall|i: int| 0 <= i < ts.len() implies (#[trigger] ts[i]).wf() by {
            assert(ts[i] == trim_desc(fin.tasks[i]));
            assert(fin.tasks[i].wf());
            let t = fin.tasks[i];
            let t2 = trim_desc(t);
            assert(t2.attrs == t.attrs && t2.subtasks == t.subtasks);
            assert(t2.wf());
        }
    }
}

/// The task's nesting stops at its subtasks: none of them has subtasks
/// of its own.
pub open spec fn one_level(t: TaskV) -> bool {
    forall|j: int| 0 <= j < t.subtasks.len() ==> (#[trigger] t.subtasks[j]).subtasks.len() == 0
}

/// Every task of the state, and the task being accumulated, nests one
/// level at most.
pub open spec fn state_one_level(st: ParseState) -> bool {
    &&& (st.current matches Some(t) ==> one_level(t))
    &&& (forall|i: int| 0 <= i < st.tasks.len() ==> one_level(#[trigger] st.tasks[i]))
}

proof fn lemma_step_one_level(st: ParseState, l: Seq<char>, lineno: nat, today: Date)
    requires
        state_one_level(st),
    ensures
        step_line(st, l, lineno, today) matches Ok(st2) ==> state_one_level(st2),
{
    let r = step_line(st, l, lineno, today);
    if r is Ok {
        let st2 = r->Ok_0;
        if l.len() > 0 && l[0] == '#' {
        } else if is_task_line(l) {
        } else if is_subtask_line(l) && st.current is Some {
            let cur = st.current->0;
            let k = indent_len(l, 0);
            if extract_spec(l.skip(k + 6), today) is Ok {
                let cur2 = st2.current->0;
                assert forall|j: int| 0 <= j < cur2.subtasks.len() implies (
                #[trigger] cur2.subtasks[j]).subtasks.len() == 0 by {
                    if j < cur.subtasks.len() {
                        assert(cur2.subtasks[j] == cur.subtasks[j]);
                    }
                }
            }
        }
    }
}

proof fn lemma_run_one_level(st: ParseState, lines: Seq<Seq<char>>, i: int, today: Date)
    requires
        state_one_level(st),
    ensures
        run_lines(st, lines, i, today) matches Ok(st2) ==> state_one_level(st2),
    decreases lines.len() - i,
{
    if 0 <= i < lines.len() {
        match step_line(st, lines[i], (i + 1) as nat, today) {
            Ok(st2) => {
                lemma_step_one_level(st, lines[i], (i + 1) as nat, today);
                lemma_run_one_level(st2, lines, i + 1, today);
            },
            Err(_) => {},
        }
    }
}

/// The parser nests one level only: no subtask of a parsed task carries
/// subtasks of its own.
pub proof fn lemma_parse_markdown_one_level(lines: Seq<Seq<char>>, today: Date)
    ensures
        parse_markdown_spec(lines, today) matches Ok(ts) ==> forall|i: int|
            0 <= i < ts.len() ==> one_level(#[trigger] ts[i]),
{
    lemma_run_one_level(empty_state(), lines, 0, today);
    if run_lines(empty_state(), lines, 0, today) is Ok {
        let st = run_lines(empty_state(), lines, 0, today)->Ok_0;
        let fin = finalize_state(st);
        let ts = trim_all(fin.tasks);
        assert forall|i: int| 0 <= i < ts.len() implies one_level(#[trigger] ts[i]) by {
            assert(ts[i] == trim_desc(fin.tasks[i]));
            assert(one_level(fin.tasks[i]));
            assert(ts[i].subtasks == fin.tasks[i].subtasks);
        }
    }
}

/// Decides `is_task_line_at`.
fn is_task_start(s: &str, k: usize) -> (r: bool)
    requires
        k <= s@.len(),
    ensures
        r == is_task_line_at(s@, k as int),
{
    let n = s.unicode_len();
    if n - k < 6 {
        return false;
    }
    if s.get_char(k) != '-' {
        return false;
    }
    if s.get_char(k + 1) != ' ' {
        return false;
    }
    if s.get_char(k + 2) != '[' {
        return false;
    }
    let c3 = s.get_char(k + 3);
    if !(c3 == ' ' || c3 == 'x' || c3 == 'X') {
        return false;
    }
    s.get_char(k + 4) == ']' && s.get_char(k + 5) == ' '
}

proof fn lemma_indent_run(s: Seq<char>, i: int, j: int)
    requires
        0 <= i <= j <= s.len(),
        forall|m: int| i <= m < j ==> (s[m] == ' ' || s[m] == '\t'),
        j == s.len() || !(s[j] == ' ' || s[j] == '\t'),
    ensures
        indent_len(s, i) == j - i,
    decreases j - i,
{
    if i < j {
        lemma_indent_run(s, i + 1, j);
    }
}

/// Counts the leading spaces and tabs, as `indent_len` says.
fn indent_of(s: &str) -> (k: usize)
    ensures
        k as int == indent_len(s@, 0),
        k <= s@.len(),
{
    let n = s.unicode_len();
    let mut k: usize = 0;
    let mut stop = false;
    while !stop && k < n
        invariant
            0 <= k <= n,
            n == s@.len(),
            forall|m: int| 0 <= m < k ==> (s@[m] == ' ' || s@[m] == '\t'),
            stop ==> k < n && !(s@[k as int] == ' ' || s@[k as int] == '\t'),
        decreases n - k, (if stop { 0int } else { 1int }),
    {
        let c = s.get_char(k);
        if c == ' ' || c == '\t' {
            k = k + 1;
        } else {
            stop = true;
        }
    }
    proof {
        lemma_indent_run(s@, 0, k as int);
    }
    k
}

/// The parser state a stack, current task and task list stand for.
pub open spec fn state_of(stack: Vec<String>, current: Option<Task>, tasks: Vec<Task>) -> ParseState {
    ParseState {
        stack: stack.deep_view(),
        current: match current {
            Some(t) => Some(task_view(t)),
            None => None,
        },
        tasks: tasks.deep_view(),
    }
}

/// Parses a document's lines into its tasks, as `parse_markdown_spec`
/// says: an ordered list of top-level tasks, each with its subtasks in
/// document order, or the first error.
pub fn parse_markdown(md: &Vec<String>, today: &Date) -> (r: Result<Vec<Task>, ParseError>)
    ensures
        match parse_markdown_spec(md.deep_view(), *today) {
            Ok(ts) => r matches Ok(v) && v.deep_view() == ts,
            Err(e) => r matches Err(pe) && pe@ == e,
        },
{
    let ghost lines = md.deep_view();
    let ghost goal = run_lines(empty_state(), lines, 0, *today);
    let mut headings_stack: Vec<String> = Vec::new();
    let mut current: Option<Task> = None;
    let mut tasks: Vec<Task> = Vec::new();
    let n = md.len();
    proof {
        assert(headings_stack.deep_view() =~= Seq::<Seq<char>>::empty());
        assert(tasks.deep_view() =~= Seq::<TaskV>::empty());
        assert(state_of(headings_stack, current, tasks) == empty_state());
    }
    let mut i: usize = 0;
    while i < n
        invariant
            0 <= i <= n,
            n == md@.len(),
            lines == md.deep_view(),
            goal == run_lines(empty_state(), lines, 0, *today),
            run_lines(state_of(headings_stack, current, tasks), lines, i as int, *today) == goal,
        decreases n - i,
    {
        let ghost st = state_of(headings_stack, current, tasks);
        let ghost l = lines[i as int];
        let ghost lineno = (i + 1) as nat;
        let line: &String = &md[i];
        let ls: &str = line.as_str();
        proof {
            assert(l == md@[i as int]@);
            assert(ls@ == l);
        }
        let ln = ls.unicode_len();
        if ln > 0 && ls.get_char(0) == '#' {
            // a heading: adjust the stack and close the current task
            match handle_headings_stack(&mut headings_stack, ls) {
                Err(e) => {
                    proof {
                        let se = step_line(st, l, lineno, *today)->Err_0;
                        assert(e@ == se);
                    }
                    return Err(e);
                },
                Ok(()) => {
                    let ghost pre_tasks = tasks.deep_view();
                    let prev = current;
                    current = None;
                    if let Some(t) = prev {
                        tasks.push(t);
                        proof {
                            assert forall|q: int| 0 <= q < pre_tasks.len() implies
                                tasks.deep_view()[q] == pre_tasks[q] by {}
                            assert(tasks.deep_view() =~= pre_tasks.push(task_view(t)));
                        }
                    }
                    proof {
                        let st2 = step_line(st, l, lineno, *today)->Ok_0;
                        assert(state_of(headings_stack, current, tasks) == st2);
                    }
                },
            }
        } else if is_task_start(ls, 0) {
            // a top-level task line: close the current task, open a new one
            let content = ls.substring_char(6, ln);
            match parse_task_title(content, today) {
                Err(e) => {
                    proof {
                        let se = step_line(st, l, lineno, *today)->Err_0;
                        assert(e@ == se);
                    }
                    return Err(e);
                },
                Ok(task) => {
                    let mut task = task;
                    task.path = clone_strings(&headings_stack);
                    let c3 = ls.get_char(3);
                    task.done = c3 == 'x' || c3 == 'X';
                    task.line_number = i + 1;
                    let ghost pre_tasks = tasks.deep_view();
                    let prev = current;
                    if let Some(t) = prev {
                        tasks.push(t);
                        proof {
                            assert forall|q: int| 0 <= q < pre_tasks.len() implies
                                tasks.deep_view()[q] == pre_tasks[q] by {}
                            assert(tasks.deep_view() =~= pre_tasks.push(task_view(t)));
                        }
                    }
                    current = Some(task);
                    proof {
                        let p = extract_spec(l.skip(6), *today)->Ok_0;
                        let want = new_task_v(st.stack, p.1, done_at(l, 0), p.0, lineno);
                        assert(task@.path =~= want.path);
                        assert(task@.subtasks =~= want.subtasks);
                        assert(task@.description =~= want.description);
                        assert(task@.file_path =~= want.file_path);
                        assert(task@ == want);
                        let st2 = step_line(st, l, lineno, *today)->Ok_0;
                        assert(state_of(headings_stack, current, tasks) == st2);
                    }
                },
            }
        } else {
            let k = indent_of(ls);
            if k >= 1 && is_task_start(ls, k) {
                // a subtask line: parse it and append it to the current task
                let mut cur = match current {
                    Some(c) => c,
                    None => {
                        return Err(ParseError {
                            kind: ParseErrorKind::OrphanSubtask,
                            line_number: i + 1,
                            text: ls.to_owned(),
                        });
                    },
                };
                let content = ls.substring_char(k + 6, ln);
                match parse_task_title(content, today) {
                    Err(e) => {
                        proof {
                            let se = step_line(st, l, lineno, *today)->Err_0;
                            assert(e@ == se);
                        }
                        return Err(e);
                    },
                    Ok(sub) => {
                        let mut sub = sub;
                        sub.path = clone_strings(&headings_stack);
                        let c3 = ls.get_char(k + 3);
                        sub.done = c3 == 'x' || c3 == 'X';
                        sub.line_number = i + 1;
                        sub.attrs.merge_attributes(&cur.attrs);
                        proof {
                            let p = extract_spec(l.skip(k + 6), *today)->Ok_0;
                            let curv = task_view(cur);
                            let want = TaskV {
                                attrs: merge_attrs_v(p.0, curv.attrs),
                                ..new_task_v(st.stack, p.1, done_at(l, k as int), p.0, lineno)
                            };
                            assert(sub@.path =~= want.path);
                            assert(sub@.subtasks =~= want.subtasks);
                            assert(sub@.description =~= want.description);
                            assert(sub@.file_path =~= want.file_path);
                            assert(sub@.attrs == want.attrs);
                            assert(sub@ == want);
                        }
                        let ghost pre_subs = cur.subtasks@;
                        let ghost pre_curv = task_view(cur);
                        let ghost subv = task_view(sub);
                        cur.subtasks.push(sub);
                        current = Some(cur);
                        proof {
                            let curv2 = task_view(cur);
                            assert(cur.subtasks@ =~= pre_subs.push(sub));
                            assert forall|q: int| 0 <= q < curv2.subtasks.len() implies
                                curv2.subtasks[q] == pre_curv.subtasks.push(subv)[q] by {
                                if q < pre_subs.len() {
                                    assert(cur.subtasks@[q] == pre_subs[q]);
                                    assert(curv2.subtasks[q] == task_view(pre_subs[q]));
                                    assert(pre_curv.subtasks[q] == task_view(pre_subs[q]));
                                } else {
                                    assert(cur.subtasks@[q] == sub);
                                }
                            }
                            assert(curv2.subtasks =~= pre_curv.subtasks.push(subv));
                            let st2 = step_line(st, l, lineno, *today)->Ok_0;
                            assert(curv2 == TaskV { subtasks: pre_curv.subtasks.push(subv), ..pre_curv });
                            assert(state_of(headings_stack, current, tasks) == st2);
                        }
                    },
                }
            } else {
                // free text: description of the current task, if any
                let prev = current;
                match prev {
                    Some(cur) => {
                        let mut cur = cur;
                        let ghost pre_curv = task_view(cur);
                        if !cur.description.as_str().is_empty() {
                            cur.description.append("\n");
                        }
                        cur.description.append(ls);
                        current = Some(cur);
                        proof {
                            reveal_strlit("\n");
                            assert("\n"@ =~= seq!['\n']);
                            let curv2 = task_view(cur);
                            let want_desc = if pre_curv.description.len() > 0 {
                                pre_curv.description + seq!['\n'] + l
                            } else {
                                l
                            };
                            assert(curv2.description =~= want_desc);
                            assert(curv2.subtasks =~= pre_curv.subtasks);
                            assert(curv2 == TaskV { description: want_desc, ..pre_curv });
                            let st2 = step_line(st, l, lineno, *today)->Ok_0;
                            assert(state_of(headings_stack, current, tasks) == st2);
                        }
                    },
                    None => {
                        current = None;
                        proof {
                            let st2 = step_line(st, l, lineno, *today)->Ok_0;
                            assert(state_of(headings_stack, current, tasks) == st2);
                        }
                    },
                }
            }
        }
        i = i + 1;
    }
    // end of input: close the task still accumulating
    let ghost st = state_of(headings_stack, current, tasks);
    proof {
        assert(run_lines(st, lines, n as int, *today) == Ok::<ParseState, ParseErrorV>(st));
        assert(goal == Ok::<ParseState, ParseErrorV>(st));
    }
    let ghost pre_tasks = tasks.deep_view();
    let prev = current;
    if let Some(t) = prev {
        tasks.push(t);
        proof {
            assert forall|q: int| 0 <= q < pre_tasks.len() implies tasks.deep_view()[q]
                == pre_tasks[q] by {}
            assert(tasks.deep_view() =~= pre_tasks.push(task_view(t)));
        }
    }
    let ghost all = finalize_state(st).tasks;
    proof {
        assert(tasks.deep_view() == all);
    }
    // trim every description
    let mut out: Vec<Task> = Vec::new();
    proof {
        assert(out.deep_view() =~= trim_all(all).take(0));
        assert(tasks.deep_view() =~= all.skip(0));
    }
    while tasks.len() > 0
        invariant
            out@.len() + tasks@.len() == all.len(),
            out.deep_view() =~= trim_all(all).take(out@.len() as int),
            tasks.deep_view() =~= all.skip(out@.len() as int),
        decreases tasks.len(),
    {
        let ghost c = out@.len() as int;
        let ghost pre_out = out.deep_view();
        let ghost pre_tasks_dv = tasks.deep_view();
        let ghost pre_tasks_v = tasks@;
        let mut t = tasks.remove(0);
        proof {
            assert(task_view(t) == all.skip(c)[0]);
            assert(all.skip(c)[0] == all[c]);
        }
        let ghost pre_tv = task_view(t);
        let trimmed = trim_str(t.description.as_str());
        t.description = trimmed;
        proof {
            let tv2 = task_view(t);
            assert(tv2.subtasks =~= pre_tv.subtasks);
            assert(tv2 == TaskV { description: trim(pre_tv.description), ..pre_tv });
            assert(tv2 == trim_desc(all[c]));
        }
        out.push(t);
        proof {
            assert forall|q: int| 0 <= q < out.deep_view().len() implies out.deep_view()[q]
                == trim_all(all).take(c + 1)[q] by {
                if q < c {
                    assert(out.deep_view()[q] == pre_out[q]);
                }
            }
            assert(out.deep_view() =~= trim_all(all).take(c + 1));
            assert forall|q: int| 0 <= q < tasks.deep_view().len() implies tasks.deep_view()[q]
                == all.skip(c + 1)[q] by {
                assert(tasks@[q] == pre_tasks_v[q + 1]);
                assert(tasks.deep_view()[q] == task_view(tasks@[q]));
                assert(pre_tasks_dv[q + 1] == task_view(pre_tasks_v[q + 1]));
                assert(pre_tasks_dv[q + 1] == all.skip(c)[q + 1]);
            }
            assert(tasks.deep_view() =~= all.skip(c + 1));
        }
    }
    proof {
        assert(out.deep_view() =~= trim_all(all));
    }
    Ok(out)
}

} // verus!
