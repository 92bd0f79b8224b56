//! Character and string utilities: whitespace trimming, decimal parsing
//! and decimal formatting, all specified over `Seq<char>`.

use vstd::prelude::*;

verus! {

/// The Unicode `White_Space` characters, the set that trimming removes.
pub open spec fn is_space_char(c: char) -> bool {
    let u = c as u32;
    (0x09 <= u && u <= 0x0D) || u == 0x20 || u == 0x85 || u == 0xA0 || u == 0x1680 || (0x2000
        <= u && u <= 0x200A) || u == 0x2028 || u == 0x2029 || u == 0x202F || u == 0x205F || u
        == 0x3000
}

/// Decides `is_space_char`.
pub fn is_space(c: char) -> (r: bool)
    ensures
        r == is_space_char(c),
{
    let u = c as u32;
    (0x09 <= u && u <= 0x0D) || u == 0x20 || u == 0x85 || u == 0xA0 || u == 0x1680 || (0x2000 <= u
        && u <= 0x200A) || u == 0x2028 || u == 0x2029 || u == 0x202F || u == 0x205F || u == 0x3000
}

/// Length of `s` once trailing whitespace is dropped.
pub open spec fn rtrim_len(s: Seq<char>) -> int
    decreases s.len(),
{
    if s.len() > 0 && is_space_char(s.last()) {
        rtrim_len(s.drop_last())
    } else {
        s.len() as int
    }
}

/// `s` with trailing whitespace removed.
pub open spec fn rtrim(s: Seq<char>) -> Seq<char> {
    s.take(rtrim_len(s))
}

/// Number of leading whitespace characters of `s`.
pub open spec fn ltrim_len(s: Seq<char>) -> int
    decreases s.len(),
{
    if s.len() > 0 && is_space_char(s.first()) {
        1 + ltrim_len(s.drop_first())
    } else {
        0
    }
}

/// `s` with leading and trailing whitespace removed.
pub open spec fn trim(s: Seq<char>) -> Seq<char> {
    let r = rtrim(s);
    r.skip(ltrim_len(r))
}

/// Where the trailing-whitespace cut falls: within the string, on a
/// whitespace suffix, after a non-whitespace character.
pub proof fn lemma_rtrim_len_bounds(s: Seq<char>)
    ensures
        0 <= rtrim_len(s) <= s.len(),
        rtrim_len(s) < s.len() ==> is_space_char(s[rtrim_len(s)]),
        rtrim_len(s) > 0 ==> !is_space_char(s[rtrim_len(s) - 1]),
        forall|k: int| rtrim_len(s) <= k < s.len() ==> is_space_char(s[k]),
    decreases s.len(),
{
    if s.len() > 0 && is_space_char(s.last()) {
        lemma_rtrim_len_bounds(s.drop_last());
        assert forall|k: int| rtrim_len(s) <= k < s.len() implies is_space_char(s[k]) by {
            if k < s.len() - 1 {
                assert(s.drop_last()[k] == s[k]);
            }
        }
    }
}

proof fn lemma_ltrim_len_bounds(s: Seq<char>)
    ensures
        0 <= ltrim_len(s) <= s.len(),
        ltrim_len(s) < s.len() ==> !is_space_char(s[ltrim_len(s)]),
        forall|k: int| 0 <= k < ltrim_len(s) ==> is_space_char(s[k]),
    decreases s.len(),
{
    if s.len() > 0 && is_space_char(s.first()) {
        lemma_ltrim_len_bounds(s.drop_first());
        assert forall|k: int| 0 <= k < ltrim_len(s) implies is_space_char(s[k]) by {
            if k > 0 {
                assert(s[k] == s.drop_first()[k - 1]);
            }
        }
    }
}

/// Removes trailing whitespace.
pub fn rtrim_str(s: &str) -> (r: String)
    ensures
        r@ == rtrim(s@),
{
    let n = s.unicode_len();
    let mut e = n;
    proof {
        assert(s@.take(n as int) =~= s@);
    }
    while e > 0 && is_space(s.get_char(e - 1))
        invariant
            0 <= e <= n,
            n == s@.len(),
            rtrim_len(s@) == rtrim_len(s@.take(e as int)),
        decreases e,
    {
        proof {
            assert(s@.take(e as int).drop_last() =~= s@.take(e as int - 1));
            assert(s@.take(e as int).last() == s@[e as int - 1]);
        }
        e = e - 1;
    }
    proof {
        let t = s@.take(e as int);
        lemma_rtrim_len_bounds(t);
        if e > 0 {
            assert(t.last() == s@[e as int - 1]);
            assert(rtrim_len(t) == e as int);
        }
        assert(rtrim_len(s@) == e as int);
    }
    let r = s.substring_char(0, e);
    r.to_owned()
}

/// Removes leading and trailing whitespace.
pub fn trim_str(s: &str) -> (r: String)
    ensures
        r@ == trim(s@),
{
    let n = s.unicode_len();
    let mut e = n;
    proof {
        assert(s@.take(n as int) =~= s@);
    }
    while e > 0 && is_space(s.get_char(e - 1))
        invariant
            0 <= e <= n,
            n == s@.len(),
            rtrim_len(s@) == rtrim_len(s@.take(e as int)),
        decreases e,
    {
        proof {
            assert(s@.take(e as int).drop_last() =~= s@.take(e as int - 1));
            assert(s@.take(e as int).last() == s@[e as int - 1]);
        }
        e = e - 1;
    }
    proof {
        let t = s@.take(e as int);
        lemma_rtrim_len_bounds(t);
        if e > 0 {
            assert(t.last() == s@[e as int - 1]);
            assert(rtrim_len(t) == e as int);
        }
        assert(rtrim_len(s@) == e as int);
    }
    let ghost rt = rtrim(s@);
    proof {
        assert(rt.skip(0) =~= rt);
    }
    let mut b: usize = 0;
    while b < e && is_space(s.get_char(b))
        invariant
            0 <= b <= e <= n,
            n == s@.len(),
            rtrim_len(s@) == e as int,
            rt == rtrim(s@),
            ltrim_len(rt) == b + ltrim_len(rt.skip(b as int)),
        decreases e - b,
    {
        proof {
            let rest = rt.skip(b as int);
            assert(rest.first() == rt[b as int]);
            assert(rt[b as int] == s@[b as int]);
            assert(rest.drop_first() =~= rt.skip(b as int + 1));
        }
        b = b + 1;
    }
    proof {
        let rest = rt.skip(b as int);
        if b < e {
            assert(rest.first() == rt[b as int]);
            assert(rt[b as int] == s@[b as int]);
            assert(ltrim_len(rest) == 0);
        } else {
            assert(rest.len() == 0);
            assert(ltrim_len(rest) == 0);
        }
        assert(ltrim_len(rt) == b as int);
        assert(rt.skip(b as int) =~= s@.subrange(b as int, e as int));
    }
    let r = s.substring_char(b, e);
    r.to_owned()
}

/// A decimal digit.
pub open spec fn is_digit_char(c: char) -> bool {
    0x30 <= c as u32 && c as u32 <= 0x39
}

/// The value of a decimal digit.
pub open spec fn digit_val(c: char) -> int {
    c as u32 - 0x30
}

/// Every character of `s` is a decimal digit.
pub open spec fn all_digits(s: Seq<char>) -> bool {
    forall|i: int| 0 <= i < s.len() ==> is_digit_char(s[i])
}

/// The value of a digit string, most significant digit first.
pub open spec fn digits_val(s: Seq<char>) -> int
    decreases s.len(),
{
    if s.len() == 0 {
        0
    } else {
        digits_val(s.drop_last()) * 10 + digit_val(s.last())
    }
}

proof fn lemma_digits_val_nonneg(s: Seq<char>)
    requires
        all_digits(s),
    ensures
        digits_val(s) >= 0,
    decreases s.len(),
{
    if s.len() > 0 {
        assert(all_digits(s.drop_last())) by {
            assert(forall|i: int|
                0 <= i < s.len() - 1 ==> s.drop_last()[i] == s[i] && is_digit_char(s[i]));
        }
        lemma_digits_val_nonneg(s.drop_last());
    }
}

proof fn lemma_digits_val_prefix_le(s: Seq<char>, i: int)
    requires
        all_digits(s),
        0 <= i <= s.len(),
    ensures
        digits_val(s.take(i)) <= digits_val(s),
    decreases s.len() - i,
{
    if i < s.len() {
        lemma_digits_val_prefix_le(s, i + 1);
        assert(s.take(i + 1).drop_last() =~= s.take(i));
        assert(s.take(i + 1).last() == s[i]);
        assert(all_digits(s.take(i))) by {
            assert(forall|k: int| 0 <= k < i ==> s.take(i)[k] == s[k]);
        }
        lemma_digits_val_nonneg(s.take(i));
        assert(digits_val(s.take(i)) <= digits_val(s.take(i + 1)));
    } else {
        assert(s.take(i) =~= s);
    }
}

/// Parses the decimal digit string `s[from..]`: the value is returned when
/// the range is nonempty, holds digits only, and its value is at most
/// `bound`; otherwise `None`.
pub fn parse_digits(s: &str, from: usize, bound: u64) -> (r: Option<u64>)
    requires
        from <= s@.len(),
    ensures
        ({
            let body = s@.skip(from as int);
            match r {
                Some(v) => body.len() > 0 && all_digits(body) && digits_val(body) == v && v
                    <= bound,
                None => !(body.len() > 0 && all_digits(body) && digits_val(body) <= bound),
            }
        }),
{
    let ghost body = s@.skip(from as int);
    let n = s.unicode_len();
    if from >= n {
        return None;
    }
    let mut i = from;
    let mut acc: u64 = 0;
    proof {
        assert(body.take(0) =~= Seq::<char>::empty());
    }
    while i < n
        invariant
            from <= i <= n,
            n == s@.len(),
            from < n,
            body == s@.skip(from as int),
            acc <= bound,
            all_digits(body.take(i - from)),
            digits_val(body.take(i - from)) == acc,
        decreases n - i,
    {
        let c = s.get_char(i);
        proof {
            assert(body[i - from] == s@[i as int]);
        }
        let u = c as u32;
        if !(0x30 <= u && u <= 0x39) {
            proof {
                assert(!is_digit_char(body[i - from]));
            }
            return None;
        }
        let d = (u - 0x30) as u64;
        proof {
            assert(body.take(i - from + 1).drop_last() =~= body.take(i - from));
            assert(body.take(i - from + 1).last() == body[i - from]);
        }
        if acc > bound / 10 {
            // the value of the digits seen so far already exceeds `bound`
            proof {
                let pre = body.take(i - from + 1);
                assert(digits_val(pre) == acc * 10 + d);
                assert(acc * 10 + d > bound) by (nonlinear_arith)
                    requires
                        acc > bound / 10,
                        0 <= d,
                        acc >= 0,
                        bound >= 0,
                ;
                if all_digits(body) && digits_val(body) <= bound {
                    lemma_digits_val_prefix_le(body, i - from + 1);
                }
            }
            return None;
        }
        proof {
            assert(acc * 10 <= bound) by (nonlinear_arith)
                requires
                    acc <= bound / 10,
                    acc >= 0,
                    bound >= 0,
            ;
        }
        let t = acc * 10;
        if d > bound - t {
            proof {
                let pre = body.take(i - from + 1);
                assert(digits_val(pre) == t + d);
                if all_digits(body) && digits_val(body) <= bound {
                    lemma_digits_val_prefix_le(body, i - from + 1);
                }
            }
            return None;
        }
        acc = t + d;
        i = i + 1;
    }
    proof {
        assert(body.take(n - from) =~= body);
    }
    Some(acc)
}

/// The decimal digits of `n >= 0`, most significant first.
pub open spec fn dec_digits(n: int) -> Seq<char>
    decreases n,
{
    if n <= 0 {
        seq!['0']
    } else if n < 10 {
        seq![(0x30 + n) as char]
    } else {
        dec_digits(n / 10).push((0x30 + n % 10) as char)
    }
}

/// The decimal rendering of an integer, with `-` for negatives.
pub open spec fn dec_int(n: int) -> Seq<char> {
    if n < 0 {
        seq!['-'] + dec_digits(-n)
    } else {
        dec_digits(n)
    }
}

/// Returns the one-character string of a decimal digit.
fn digit_str(d: u64) -> (r: &'static str)
    requires
        d < 10,
    ensures
        r@ =~= seq![(0x30 + d) as char],
{
    proof {
        reveal_strlit("0");
        reveal_strlit("1");
        reveal_strlit("2");
        reveal_strlit("3");
        reveal_strlit("4");
        reveal_strlit("5");
        reveal_strlit("6");
        reveal_strlit("7");
        reveal_strlit("8");
        reveal_strlit("9");
    }
    match d {
        0 => "0",
        1 => "1",
        2 => "2",
        3 => "3",
        4 => "4",
        5 => "5",
        6 => "6",
        7 => "7",
        8 => "8",
        _ => "9",
    }
}

/// Renders `n` in decimal.
pub fn u64_to_string(n: u64) -> (r: String)
    ensures
        r@ == dec_digits(n as int),
    decreases n,
{
    if n < 10 {
        digit_str(n).to_owned()
    } else {
        let mut r = u64_to_string(n / 10);
        r.append(digit_str(n % 10));
        proof {
            assert(dec_digits(n as int) =~= dec_digits(n as int / 10).push(
                (0x30 + n as int % 10) as char,
            ));
            assert(dec_digits(n as int / 10).push((0x30 + n as int % 10) as char)
                =~= dec_digits(n as int / 10) + seq![(0x30 + n as int % 10) as char]);
        }
        r
    }
}

/// Renders `n` in decimal, with a leading `-` when negative.
pub fn i64_to_string(n: i64) -> (r: String)
    ensures
        r@ == dec_int(n as int),
{
    if n >= 0 {
        u64_to_string(n as u64)
    } else {
        let mag: u64 = ((-(n + 1)) as u64) + 1;
        let mut r = String::new();
        r.append("-");
        let digits = u64_to_string(mag);
        r.append(digits.as_str());
        proof {
            reveal_strlit("-");
            assert(r@ =~= seq!['-'] + dec_digits(mag as int));
        }
        r
    }
}

/// Renders `n` in decimal, left-padded with zeros to at least `width` digits.
/// Matches `dec_digits(n)` when the number is already wide enough.
pub open spec fn dec_padded(n: int, width: int) -> Seq<char>
    decreases width,
{
    let d = dec_digits(n);
    if d.len() >= width {
        d
    } else {
        seq!['0'] + dec_padded(n, width - 1)
    }
}

/// Renders `n` zero-padded to at least `width` digits.
pub fn u64_to_string_pad(n: u64, width: usize) -> (r: String)
    requires
        width <= 8,
    ensures
        r@ == dec_padded(n as int, width as int),
    decreases width,
{
    let digits = u64_to_string(n);
    let len = digits.as_str().unicode_len();
    if len >= width {
        digits
    } else {
        let mut r = String::new();
        r.append("0");
        let rest = u64_to_string_pad(n, width - 1);
        r.append(rest.as_str());
        proof {
            reveal_strlit("0");
            assert(r@ =~= seq!['0'] + dec_padded(n as int, width as int - 1));
        }
        r
    }
}

} // verus!
