//! Decimal formatting and parsing of experience ids, as they travel in job
//! payloads: an id is published as its base-10 string and parsed back by the
//! harvester.

use vstd::prelude::*;

verus! {

/// The character for decimal digit value `d`.
pub open spec fn dec_char(d: int) -> char {
    if d == 0 { '0' }
    else if d == 1 { '1' }
    else if d == 2 { '2' }
    else if d == 3 { '3' }
    else if d == 4 { '4' }
    else if d == 5 { '5' }
    else if d == 6 { '6' }
    else if d == 7 { '7' }
    else if d == 8 { '8' }
    else if d == 9 { '9' }
    else { '0' }
}

/// The value of a decimal digit character, or `-1` for any other character.
pub open spec fn dec_val(c: char) -> int {
    if c == '0' { 0 }
    else if c == '1' { 1 }
    else if c == '2' { 2 }
    else if c == '3' { 3 }
    else if c == '4' { 4 }
    else if c == '5' { 5 }
    else if c == '6' { 6 }
    else if c == '7' { 7 }
    else if c == '8' { 8 }
    else if c == '9' { 9 }
    else { -1 }
}

/// Whether a character is a decimal digit.
pub open spec fn is_dec_digit(c: char) -> bool {
    dec_val(c) >= 0
}

/// The decimal digit string of `u`, most significant digit first; `0` is
/// written as a single `'0'`.
pub open spec fn dec_digits(u: nat) -> Seq<char>
    decreases u,
{
    if u < 10 {
        seq![dec_char(u as int)]
    } else {
        dec_digits(u / 10).push(dec_char((u % 10) as int))
    }
}

/// The decimal rendering of a signed integer.
pub open spec fn decimal_of(n: int) -> Seq<char> {
    if n < 0 {
        seq!['-'] + dec_digits((-n) as nat)
    } else {
        dec_digits(n as nat)
    }
}

/// The integer a digit string denotes, folding left to right in base 10.
pub open spec fn digits_value(s: Seq<char>) -> int
    decreases s.len(),
{
    if s.len() == 0 {
        0
    } else {
        digits_value(s.drop_last()) * 10 + dec_val(s.last())
    }
}

/// Index of the first non-digit character, or the length if all characters
/// are digits.
pub open spec fn first_nondigit(s: Seq<char>) -> int
    decreases s.len(),
{
    if s.len() == 0 {
        0
    } else if !is_dec_digit(s[0]) {
        0
    } else {
        1 + first_nondigit(s.drop_first())
    }
}

/// Length of the sign prefix of a number string: one if it starts with `+` or
/// `-`, zero otherwise.
pub open spec fn sign_len(s: Seq<char>) -> int {
    if s.len() > 0 && (s[0] == '-' || s[0] == '+') {
        1
    } else {
        0
    }
}

/// Whether a number string carries a minus sign.
pub open spec fn is_negative_number(s: Seq<char>) -> bool {
    s.len() > 0 && s[0] == '-'
}

/// Failure to read a decimal integer from a string.
#[derive(Debug, Clone, Copy, PartialEq, Eq, Structural)]
pub enum ParseNumberError {
    Empty,
    InvalidDigit { symbol: char, position: usize },
    OutOfRange,
}

/// What reading a signed decimal integer from `s` yields: an empty body
/// fails `Empty`, the first non-digit fails `InvalidDigit` with its position
/// in the whole string, and a well-formed number outside the `i32` range
/// fails `OutOfRange`.
pub open spec fn parse_i32_spec(s: Seq<char>) -> Result<i32, ParseNumberError> {
    let body = s.skip(sign_len(s));
    let fnd = first_nondigit(body);
    let v = digits_value(body);
    if body.len() == 0 {
        Err(ParseNumberError::Empty)
    } else if fnd < body.len() {
        Err(ParseNumberError::InvalidDigit {
            symbol: body[fnd],
            position: (fnd + sign_len(s)) as usize,
        })
    } else if is_negative_number(s) {
        if v <= 2147483648 {
            Ok((-v) as i32)
        } else {
            Err(ParseNumberError::OutOfRange)
        }
    } else {
        if v <= 2147483647 {
            Ok(v as i32)
        } else {
            Err(ParseNumberError::OutOfRange)
        }
    }
}

/// The single-character string of decimal digit value `d`.
fn dec_digit_str(d: usize) -> (s: &'static str)
    requires
        d < 10,
    ensures
        s@ == seq![dec_char(d as int)],
{
    proof {
        reveal_strlit("0");
        reveal_strlit("1");
        reveal_strlit("2");
        reveal_strlit("3");
        reveal_strlit("4");
        reveal_strlit("5");
        reveal_strlit("6");
        reveal_strlit("7");
        reveal_strlit("8");
        reveal_strlit("9");
    }
    let s: &'static str = match d {
        0 => "0",
        1 => "1",
        2 => "2",
        3 => "3",
        4 => "4",
        5 => "5",
        6 => "6",
        7 => "7",
        8 => "8",
        _ => "9",
    };
    proof {
        assert(s@ =~= seq![dec_char(d as int)]);
    }
    s
}

/// The value of a decimal digit character, if it is one.
fn dec_digit_value(c: char) -> (v: Option<u64>)
    ensures
        is_dec_digit(c) ==> v == Some(dec_val(c) as u64),
        !is_dec_digit(c) ==> v is None,
{
    match c {
        '0' => Some(0),
        '1' => Some(1),
        '2' => Some(2),
        '3' => Some(3),
        '4' => Some(4),
        '5' => Some(5),
        '6' => Some(6),
        '7' => Some(7),
        '8' => Some(8),
        '9' => Some(9),
        _ => None,
    }
}

/// Appends the decimal digit string of `u` to `out`.
fn push_dec_digits(u: u64, out: &mut String)
    ensures
        final(out)@ == old(out)@ + dec_digits(u as nat),
    decreases u,
{
    if u < 10 {
        out.append(dec_digit_str(u as usize));
        proof {
            assert(out@ =~= old(out)@ + dec_digits(u as nat));
        }
    } else {
        push_dec_digits(u / 10, out);
        let d: usize = (u % 10) as usize;
        out.append(dec_digit_str(d));
        proof {
            assert(out@ =~= old(out)@ + dec_digits(u as nat));
        }
    }
}

/// Renders a signed id in decimal, as the coordinator publishes it.
pub fn decimal_string(n: i32) -> (s: String)
    ensures
        s@ == decimal_of(n as int),
{
    let mut out = String::new();
    if n < 0 {
        out.append("-");
        proof {
            reveal_strlit("-");
            assert(out@ =~= seq!['-']);
        }
        let m: u64 = (-(n as i64)) as u64;
        push_dec_digits(m, &mut out);
        proof {
            assert(out@ =~= decimal_of(n as int));
        }
    } else {
        let m: u64 = n as u64;
        push_dec_digits(m, &mut out);
        proof {
            assert(out@ =~= decimal_of(n as int));
        }
    }
    out
}

/// Reads a signed decimal integer, accepting an optional leading `+` or `-`:
/// an empty body fails `Empty`, the first non-digit fails `InvalidDigit` with
/// its position in the whole string, and a well-formed number outside the
/// `i32` range fails `OutOfRange`.
pub fn parse_i32(s: &str) -> (r: Result<i32, ParseNumberError>)
    ensures
        r == parse_i32_spec(s@),
{
    let n: usize = s.unicode_len();
    let mut pos: usize = 0;
    let mut neg: bool = false;
    if n > 0 {
        let c0: char = s.get_char(0);
        if c0 == '-' {
            neg = true;
            pos = 1;
        } else if c0 == '+' {
            pos = 1;
        }
    }
    let ghost body: Seq<char> = s@.skip(pos as int);
    if pos == n {
        return Err(ParseNumberError::Empty);
    }
    let mut acc: u64 = 0;
    let mut too_big: bool = false;
    let mut i: usize = pos;
    while i < n
        invariant
            n == s@.len(),
            pos <= i <= n,
            pos == sign_len(s@),
            neg == is_negative_number(s@),
            body == s@.skip(pos as int),
            forall|j: int| pos <= j < i ==> is_dec_digit(s@[j]),
            !too_big ==> acc == digits_value(body.take(i - pos)) && acc <= 2147483648,
            too_big ==> digits_value(body.take(i - pos)) > 2147483648,
        decreases n - i,
    {
        let c: char = s.get_char(i);
        proof {
            assert(forall|j: int| 0 <= j <= i - pos ==> body[j] == s@[pos + j]);
            assert(forall|j: int| 0 <= j < i - pos ==> is_dec_digit(body[j]));
            assert(body.take(i - pos + 1).drop_last() =~= body.take(i - pos));
            assert(body.take(i - pos + 1).last() == s@[i as int]);
        }
        match dec_digit_value(c) {
            None => {
                proof {
                    lemma_first_nondigit_at(body, i - pos);
                }
                return Err(ParseNumberError::InvalidDigit { symbol: c, position: i });
            },
            Some(d) => {
                proof {
                    assert(digits_value(body.take(i - pos + 1)) == digits_value(
                        body.take(i - pos),
                    ) * 10 + d);
                }
                if !too_big {
                    acc = acc * 10 + d;
                    if acc > 2147483648 {
                        too_big = true;
                    }
                } else {
                    proof {
                        lemma_digits_value_nonneg(body.take(i - pos));
                    }
                }
            },
        }
        i += 1;
    }
    proof {
        assert(body.take(n - pos) =~= body);
        assert(forall|j: int| 0 <= j < body.len() ==> body[j] == s@[pos + j]);
        assert(forall|j: int| 0 <= j < body.len() ==> is_dec_digit(body[j]));
        lemma_first_nondigit_lower(body, body.len() as int);
        lemma_first_nondigit_bounds(body);
    }
    if too_big {
        return Err(ParseNumberError::OutOfRange);
    }
    if neg {
        let v: i64 = -(acc as i64);
        Ok(v as i32)
    } else {
        if acc > 2147483647 {
            return Err(ParseNumberError::OutOfRange);
        }
        Ok(acc as i32)
    }
}

/// `first_nondigit` is in bounds, everything before it is a digit, and the
/// character at it (if any) is not.
proof fn lemma_first_nondigit_bounds(s: Seq<char>)
    ensures
        0 <= first_nondigit(s) <= s.len(),
        forall|j: int| 0 <= j < first_nondigit(s) ==> is_dec_digit(s[j]),
        first_nondigit(s) < s.len() ==> !is_dec_digit(s[first_nondigit(s)]),
    decreases s.len(),
{
    if s.len() > 0 && is_dec_digit(s[0]) {
        lemma_first_nondigit_bounds(s.drop_first());
        assert(forall|j: int| 1 <= j < first_nondigit(s) ==> is_dec_digit(
            #[trigger] s[j],
        )) by {
            assert(forall|j: int| 0 <= j < first_nondigit(s.drop_first()) ==> is_dec_digit(
                #[trigger] s.drop_first()[j],
            ));
            assert(forall|j: int| 1 <= j < first_nondigit(s) ==> s[j] == s.drop_first()[j - 1]);
        }
    }
}

/// If the first `k` characters are digits, the first non-digit position is at
/// least `k`.
proof fn lemma_first_nondigit_lower(s: Seq<char>, k: int)
    requires
        0 <= k <= s.len(),
        forall|j: int| 0 <= j < k ==> is_dec_digit(s[j]),
    ensures
        first_nondigit(s) >= k,
    decreases k,
{
    if k > 0 {
        assert(is_dec_digit(s[0]));
        let rest = s.drop_first();
        assert(forall|j: int| 0 <= j < k - 1 ==> rest[j] == s[j + 1]);
        assert(forall|j: int| 0 <= j < k - 1 ==> is_dec_digit(rest[j]));
        lemma_first_nondigit_lower(rest, k - 1);
        assert(first_nondigit(s) == 1 + first_nondigit(rest));
    } else {
        lemma_first_nondigit_bounds(s);
    }
}

/// Pinpoints `first_nondigit` at `i` when all earlier characters are digits
/// and the one at `i` is not.
proof fn lemma_first_nondigit_at(s: Seq<char>, i: int)
    requires
        0 <= i < s.len(),
        forall|j: int| 0 <= j < i ==> is_dec_digit(s[j]),
        !is_dec_digit(s[i]),
    ensures
        first_nondigit(s) == i,
{
    lemma_first_nondigit_bounds(s);
    lemma_first_nondigit_lower(s, i);
    if first_nondigit(s) > i {
        assert(is_dec_digit(s[i]));
    }
}

/// The value of an all-digit string is non-negative.
proof fn lemma_digits_value_nonneg(s: Seq<char>)
    requires
        forall|j: int| 0 <= j < s.len() ==> is_dec_digit(s[j]),
    ensures
        digits_value(s) >= 0,
    decreases s.len(),
{
    if s.len() > 0 {
        let head = s.drop_last();
        assert(forall|j: int| 0 <= j < head.len() ==> head[j] == s[j]);
        lemma_digits_value_nonneg(head);
        assert(is_dec_digit(s.last()));
    }
}

/// The digit character of `d` carries value `d`.
proof fn lemma_dec_char_val(d: int)
    requires
        0 <= d < 10,
    ensures
        dec_val(dec_char(d)) == d,
{
}

/// Every character of a decimal digit string is a digit.
proof fn lemma_dec_digits_digits(u: nat)
    ensures
        dec_digits(u).len() > 0,
        forall|j: int| 0 <= j < dec_digits(u).len() ==> is_dec_digit(#[trigger] dec_digits(u)[j]),
    decreases u,
{
    if u < 10 {
        lemma_dec_char_val(u as int);
    } else {
        lemma_dec_digits_digits(u / 10);
        lemma_dec_char_val((u % 10) as int);
    }
}

/// Folding the decimal digit string of `u` recovers `u`.
proof fn lemma_dec_digits_value(u: nat)
    ensures
        digits_value(dec_digits(u)) == u,
    decreases u,
{
    if u < 10 {
        lemma_dec_char_val(u as int);
        assert(digits_value(Seq::<char>::empty()) == 0);
        assert(dec_digits(u) =~= seq![dec_char(u as int)]);
        assert(dec_digits(u).drop_last() =~= Seq::<char>::empty());
        assert(dec_digits(u).last() == dec_char(u as int));
    } else {
        lemma_dec_digits_value(u / 10);
        lemma_dec_char_val((u % 10) as int);
        assert(dec_digits(u).drop_last() =~= dec_digits(u / 10));
        assert(dec_digits(u).last() == dec_char((u % 10) as int));
    }
}

/// Law: a decimal rendering parses back to the very value it was made from,
/// for every value in the `i32` range.
pub proof fn lemma_decimal_parse_back(n: int)
    requires
        -2147483648 <= n <= 2147483647,
    ensures
        parse_i32_spec(decimal_of(n)) == Ok::<i32, ParseNumberError>(n as i32),
{
    lemma_decimal_round_trip(n);
}

/// Law: rendering an id in decimal and reading it back yields the id, for
/// every value in the `i32` range.
pub proof fn lemma_decimal_round_trip(n: int)
    requires
        -2147483648 <= n <= 2147483647,
    ensures
        ({
            let t = decimal_of(n);
            let body = t.skip(sign_len(t));
            &&& sign_len(t) == (if n < 0 { 1int } else { 0int })
            &&& is_negative_number(t) == (n < 0)
            &&& body.len() > 0
            &&& first_nondigit(body) == body.len()
            &&& digits_value(body) == (if n < 0 { -n } else { n })
        }),
{
    let t = decimal_of(n);
    if n < 0 {
        let ds = dec_digits((-n) as nat);
        lemma_dec_digits_digits((-n) as nat);
        lemma_dec_digits_value((-n) as nat);
        assert(t[0] == '-');
        assert(t.skip(1) =~= ds);
        lemma_first_nondigit_lower(ds, ds.len() as int);
        lemma_first_nondigit_bounds(ds);
    } else {
        let ds = dec_digits(n as nat);
        lemma_dec_digits_digits(n as nat);
        lemma_dec_digits_value(n as nat);
        assert(ds[0] != '-' && ds[0] != '+') by {
            lemma_first_nondigit_bounds(ds);
            assert(is_dec_digit(ds[0]));
        }
        assert(sign_len(t) == 0);
        assert(t.skip(0) =~= ds);
        lemma_first_nondigit_lower(ds, ds.len() as int);
        lemma_first_nondigit_bounds(ds);
    }
}

} // verus!
