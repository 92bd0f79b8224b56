//! The command-line facing values: the argument record and the small
//! parsers its readers need.

use vstd::prelude::*;
use crate::date::{Date, make_date, valid_ymd};
use crate::parser::{
    ParseError, ParseErrorKind, date_fields, parse_i32_spec, parse_u32_spec, parse_usize,
    parse_usize_spec,
};

verus! {

/// The command-line arguments: a directory to search, a lookahead in
/// days, an override for today's date in `M/D/Y` form, and a task id to
/// show.
#[derive(Debug, Clone, PartialEq, Eq, Default)]
pub struct CliArgs {
    pub dir: Option<String>,
    pub days: Option<i64>,
    pub today: Option<String>,
    pub task_id: Option<String>,
}

impl CliArgs {
    /// The lookahead window in days; zero when none was given.
    pub fn lookahead_days(&self) -> (r: i64)
        ensures
            r == (match self.days {
                Some(d) => d,
                None => 0i64,
            }),
    {
        match self.days {
            Some(d) => d,
            None => 0,
        }
    }

    /// The task id argument read as a number, or handed back as text
    /// where it is none.
    pub fn get_task_id(&self) -> (r: Option<Result<usize, String>>)
        ensures
            match self.task_id {
                Some(s) => r matches Some(x) && (match parse_usize_spec(s@) {
                    Some(v) => x == Ok::<usize, String>(v),
                    None => x matches Err(e) && e@ == s@,
                }),
                None => r is None,
            },
    {
        match &self.task_id {
            Some(s) => Some(
                match parse_usize(s.as_str()) {
                    Some(v) => Ok(v),
                    None => Err(s.clone()),
                },
            ),
            None => None,
        }
    }
}

/// The date a strict `M/D/Y` argument names: exactly three fields, each
/// an integer, naming an existing day.
pub open spec fn parse_date_arg_spec(s: Seq<char>) -> Option<Date> {
    match date_fields(s) {
        Some((mf, df, Some(yf))) => {
            let m = parse_u32_spec(mf);
            let d = parse_u32_spec(df);
            let y = parse_i32_spec(yf);
            if m is Some && d is Some && y is Some && valid_ymd(
                y->0 as int,
                m->0 as int,
                d->0 as int,
            ) {
                Some(Date { year: y->0, month: m->0, day: d->0 })
            } else {
                None
            }
        },
        _ => None,
    }
}

/// Parses a date given on the command line, in `M/D/Y` form only, as
/// `parse_date_arg_spec` says.
pub fn parse_date_arg(date_str: &str) -> (r: Result<Date, ParseError>)
    ensures
        match parse_date_arg_spec(date_str@) {
            Some(d) => r == Ok::<Date, ParseError>(d),
            None => r matches Err(e) && e@.kind == ParseErrorKind::InvalidDate && e@.text
                == date_str@ && e@.line_number == 0,
        },
{
    let n = date_str.unicode_len();
    let j1 = match crate::parser::find_char_from(date_str, '/', 0) {
        Some(j) => j,
        None => {
            return Err(ParseError {
                kind: ParseErrorKind::InvalidDate,
                line_number: 0,
                text: date_str.to_owned(),
            });
        },
    };
    proof {
        crate::parser::lemma_find_from_bounds(date_str@, '/', 0);
    }
    let j2 = match crate::parser::find_char_from(date_str, '/', j1 + 1) {
        Some(j) => j,
        None => {
            return Err(ParseError {
                kind: ParseErrorKind::InvalidDate,
                line_number: 0,
                text: date_str.to_owned(),
            });
        },
    };
    proof {
        crate::parser::lemma_find_from_bounds(date_str@, '/', j1 + 1);
    }
    if let Some(_) = crate::parser::find_char_from(date_str, '/', j2 + 1) {
        return Err(ParseError {
            kind: ParseErrorKind::InvalidDate,
            line_number: 0,
            text: date_str.to_owned(),
        });
    }
    let mf = date_str.substring_char(0, j1);
    let df = date_str.substring_char(j1 + 1, j2);
    let yf = date_str.substring_char(j2 + 1, n);
    let m = crate::parser::parse_u32(mf);
    let d = crate::parser::parse_u32(df);
    let y = crate::parser::parse_i32(yf);
    match (m, d, y) {
        (Some(m), Some(d), Some(y)) => match make_date(y, m, d) {
            Some(date) => Ok(date),
            None => Err(ParseError {
                kind: ParseErrorKind::InvalidDate,
                line_number: 0,
                text: date_str.to_owned(),
            }),
        },
        _ => Err(ParseError {
            kind: ParseErrorKind::InvalidDate,
            line_number: 0,
            text: date_str.to_owned(),
        }),
    }
}

} // verus!
