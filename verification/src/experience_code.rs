//! The share-code codec: a dense non-negative integer is written in base 35
//! over the alphabet `A`..`Z`, `1`..`9` (most significant digit first) and
//! left-padded with two copies of the zero symbol `A`; decoding strips the
//! leading pad symbols and folds the remaining digits back into the integer.

use vstd::prelude::*;

verus! {

/// The symbol that stands for digit value `d` (uppercase letters, then the
/// digits `1`..`9`); `A` doubles as the pad symbol.
pub open spec fn sym_char(d: int) -> char {
    if d == 0 { 'A' }
    else if d == 1 { 'B' }
    else if d == 2 { 'C' }
    else if d == 3 { 'D' }
    else if d == 4 { 'E' }
    else if d == 5 { 'F' }
    else if d == 6 { 'G' }
    else if d == 7 { 'H' }
    else if d == 8 { 'I' }
    else if d == 9 { 'J' }
    else if d == 10 { 'K' }
    else if d == 11 { 'L' }
    else if d == 12 { 'M' }
    else if d == 13 { 'N' }
    else if d == 14 { 'O' }
    else if d == 15 { 'P' }
    else if d == 16 { 'Q' }
    else if d == 17 { 'R' }
    else if d == 18 { 'S' }
    else if d == 19 { 'T' }
    else if d == 20 { 'U' }
    else if d == 21 { 'V' }
    else if d == 22 { 'W' }
    else if d == 23 { 'X' }
    else if d == 24 { 'Y' }
    else if d == 25 { 'Z' }
    else if d == 26 { '1' }
    else if d == 27 { '2' }
    else if d == 28 { '3' }
    else if d == 29 { '4' }
    else if d == 30 { '5' }
    else if d == 31 { '6' }
    else if d == 32 { '7' }
    else if d == 33 { '8' }
    else if d == 34 { '9' }
    else { 'A' }
}

/// The digit value of a symbol, or `-1` for a character outside the alphabet.
pub open spec fn sym_val(c: char) -> int {
    if c == 'A' { 0 }
    else if c == 'B' { 1 }
    else if c == 'C' { 2 }
    else if c == 'D' { 3 }
    else if c == 'E' { 4 }
    else if c == 'F' { 5 }
    else if c == 'G' { 6 }
    else if c == 'H' { 7 }
    else if c == 'I' { 8 }
    else if c == 'J' { 9 }
    else if c == 'K' { 10 }
    else if c == 'L' { 11 }
    else if c == 'M' { 12 }
    else if c == 'N' { 13 }
    else if c == 'O' { 14 }
    else if c == 'P' { 15 }
    else if c == 'Q' { 16 }
    else if c == 'R' { 17 }
    else if c == 'S' { 18 }
    else if c == 'T' { 19 }
    else if c == 'U' { 20 }
    else if c == 'V' { 21 }
    else if c == 'W' { 22 }
    else if c == 'X' { 23 }
    else if c == 'Y' { 24 }
    else if c == 'Z' { 25 }
    else if c == '1' { 26 }
    else if c == '2' { 27 }
    else if c == '3' { 28 }
    else if c == '4' { 29 }
    else if c == '5' { 30 }
    else if c == '6' { 31 }
    else if c == '7' { 32 }
    else if c == '8' { 33 }
    else if c == '9' { 34 }
    else { -1 }
}

/// Whether a character belongs to the share-code alphabet.
pub open spec fn is_symbol(c: char) -> bool {
    sym_val(c) >= 0
}

/// The base-35 digit string of `u`, most significant digit first; empty for 0.
pub open spec fn code_digits(u: nat) -> Seq<char>
    decreases u,
{
    if u == 0 {
        Seq::empty()
    } else {
        code_digits(u / 35).push(sym_char((u % 35) as int))
    }
}

/// The full share code of id `u`: two pad symbols followed by its digits.
pub open spec fn encoding_of(u: nat) -> Seq<char> {
    seq!['A', 'A'] + code_digits(u)
}

/// The code with its leading pad symbols removed.
pub open spec fn strip_pad(s: Seq<char>) -> Seq<char>
    decreases s.len(),
{
    if s.len() > 0 && s[0] == 'A' {
        strip_pad(s.drop_first())
    } else {
        s
    }
}

/// The integer a digit string denotes, folding left to right in base 35.
pub open spec fn code_value(s: Seq<char>) -> int
    decreases s.len(),
{
    if s.len() == 0 {
        0
    } else {
        code_value(s.drop_last()) * 35 + sym_val(s.last())
    }
}

/// Index of the first character outside the alphabet, or the length if all
/// characters are symbols.
pub open spec fn first_invalid(s: Seq<char>) -> int
    decreases s.len(),
{
    if s.len() == 0 {
        0
    } else if !is_symbol(s[0]) {
        0
    } else {
        1 + first_invalid(s.drop_first())
    }
}

/// Decoding failure: an unknown symbol at a position (counted after the pad
/// is stripped), or a value too large for the machine word.
#[derive(Debug, Clone, Copy, PartialEq, Eq, Structural)]
pub enum DecodeError {
    UnknownSymbol { symbol: char, position: usize },
    ValueOverflow,
}

/// Validation failure of a full share code.
#[derive(Debug, Clone, Copy, PartialEq, Eq, Structural)]
pub enum InvalidCodeError {
    TooShort { length: usize },
    BadSymbol { symbol: char, position: usize },
}

/// Rejection of a non-positive id where a positive one is required.
#[derive(Debug, Clone, Copy, PartialEq, Eq, Structural)]
pub struct NonPositiveError {
    pub value: i32,
}

/// A public share code as exchanged with the remote backend.
#[derive(Debug, Clone)]
pub struct ExperienceCode {
    experience_code: String,
}

impl View for ExperienceCode {
    type V = Seq<char>;

    closed spec fn view(&self) -> Seq<char> {
        self.experience_code@
    }
}

/// The single-character string of the symbol for digit value `d`.
fn symbol_str(d: usize) -> (s: &'static str)
    requires
        d < 35,
    ensures
        s@ == seq![sym_char(d as int)],
{
    proof {
        reveal_strlit("A");
        reveal_strlit("B");
        reveal_strlit("C");
        reveal_strlit("D");
        reveal_strlit("E");
        reveal_strlit("F");
        reveal_strlit("G");
        reveal_strlit("H");
        reveal_strlit("I");
        reveal_strlit("J");
        reveal_strlit("K");
        reveal_strlit("L");
        reveal_strlit("M");
        reveal_strlit("N");
        reveal_strlit("O");
        reveal_strlit("P");
        reveal_strlit("Q");
        reveal_strlit("R");
        reveal_strlit("S");
        reveal_strlit("T");
        reveal_strlit("U");
        reveal_strlit("V");
        reveal_strlit("W");
        reveal_strlit("X");
        reveal_strlit("Y");
        reveal_strlit("Z");
        reveal_strlit("1");
        reveal_strlit("2");
        reveal_strlit("3");
        reveal_strlit("4");
        reveal_strlit("5");
        reveal_strlit("6");
        reveal_strlit("7");
        reveal_strlit("8");
        reveal_strlit("9");
    }
    let s: &'static str = match d {
        0 => "A",
        1 => "B",
        2 => "C",
        3 => "D",
        4 => "E",
        5 => "F",
        6 => "G",
        7 => "H",
        8 => "I",
        9 => "J",
        10 => "K",
        11 => "L",
        12 => "M",
        13 => "N",
        14 => "O",
        15 => "P",
        16 => "Q",
        17 => "R",
        18 => "S",
        19 => "T",
        20 => "U",
        21 => "V",
        22 => "W",
        23 => "X",
        24 => "Y",
        25 => "Z",
        26 => "1",
        27 => "2",
        28 => "3",
        29 => "4",
        30 => "5",
        31 => "6",
        32 => "7",
        33 => "8",
        _ => "9",
    };
    proof {
        assert(s@ =~= seq![sym_char(d as int)]);
    }
    s
}

/// What `str::to_uppercase` yields on a string's characters; the result is a
/// function of the input characters alone.
pub uninterp spec fn upper_of(s: Seq<char>) -> Seq<char>;

/// Relies on str::to_uppercase: the Unicode uppercase form of the string,
/// determined by its characters alone.
#[verifier::external_body]
fn to_uppercase_string(s: &str) -> (r: String)
    ensures
        r@ == upper_of(s@),
{
    s.to_uppercase()
}

/// The digit value of a character, if it is in the alphabet.
fn symbol_value(c: char) -> (v: Option<usize>)
    ensures
        is_symbol(c) ==> v == Some(sym_val(c) as usize),
        !is_symbol(c) ==> v is None,
{
    match c {
        'A' => Some(0),
        'B' => Some(1),
        'C' => Some(2),
        'D' => Some(3),
        'E' => Some(4),
        'F' => Some(5),
        'G' => Some(6),
        'H' => Some(7),
        'I' => Some(8),
        'J' => Some(9),
        'K' => Some(10),
        'L' => Some(11),
        'M' => Some(12),
        'N' => Some(13),
        'O' => Some(14),
        'P' => Some(15),
        'Q' => Some(16),
        'R' => Some(17),
        'S' => Some(18),
        'T' => Some(19),
        'U' => Some(20),
        'V' => Some(21),
        'W' => Some(22),
        'X' => Some(23),
        'Y' => Some(24),
        'Z' => Some(25),
        '1' => Some(26),
        '2' => Some(27),
        '3' => Some(28),
        '4' => Some(29),
        '5' => Some(30),
        '6' => Some(31),
        '7' => Some(32),
        '8' => Some(33),
        '9' => Some(34),
        _ => None,
    }
}

/// Appends the base-35 digit string of `u` to `out`.
fn push_code_digits(u: usize, out: &mut String)
    ensures
        final(out)@ == old(out)@ + code_digits(u as nat),
    decreases u,
{
    if u > 0 {
        push_code_digits(u / 35, out);
        let d: usize = u % 35;
        out.append(symbol_str(d));
        proof {
            assert(out@ =~= old(out)@ + code_digits(u as nat));
        }
    } else {
        proof {
            assert(old(out)@ + code_digits(0) =~= old(out)@);
        }
    }
}

impl ExperienceCode {
    /// Encodes a non-negative id into its padded share code.
    pub fn from_usize(u: usize) -> (code: ExperienceCode)
        ensures
            code@ == encoding_of(u as nat),
    {
        let mut s = String::from_str("AA");
        proof {
            reveal_strlit("AA");
            assert(s@ =~= seq!['A', 'A']);
        }
        push_code_digits(u, &mut s);
        proof {
            assert(s@ =~= encoding_of(u as nat));
        }
        ExperienceCode { experience_code: s }
    }

    /// Encodes an id given as `u32`.
    pub fn from_u32(i: u32) -> (code: ExperienceCode)
        ensures
            code@ == encoding_of(i as nat),
    {
        ExperienceCode::from_usize(i as usize)
    }

    /// Encodes a strictly positive id given as `i32`; non-positive ids are
    /// rejected.
    pub fn from_i32(i: i32) -> (r: Result<ExperienceCode, NonPositiveError>)
        ensures
            i > 0 ==> (r matches Ok(code) && code@ == encoding_of(i as nat)),
            i <= 0 ==> r == Err::<ExperienceCode, NonPositiveError>(NonPositiveError { value: i }),
    {
        if i <= 0 {
            Err(NonPositiveError { value: i })
        } else {
            Ok(ExperienceCode::from_usize(i as usize))
        }
    }

    /// Normalizes a string to uppercase and wraps it as a share code.
    pub fn from_string(s: String) -> (code: ExperienceCode)
        ensures
            code@ == upper_of(s@),
    {
        ExperienceCode { experience_code: to_uppercase_string(s.as_str()) }
    }

    /// Wraps a string verbatim as a share code.
    pub fn from_code_str(s: &str) -> (code: ExperienceCode)
        ensures
            code@ == s@,
    {
        ExperienceCode { experience_code: s.to_owned() }
    }

    /// A copy of the code with the same characters.
    pub fn duplicate(&self) -> (r: ExperienceCode)
        ensures
            r@ == self@,
    {
        ExperienceCode { experience_code: self.experience_code.clone() }
    }

    /// The code as a string slice.
    pub fn as_str(&self) -> (s: &str)
        ensures
            s@ == self@,
    {
        self.experience_code.as_str()
    }

    /// Gives the code up as an owned string.
    pub fn into_string(self) -> (s: String)
        ensures
            s@ == self@,
    {
        self.experience_code
    }

    /// Decodes the code back into its integer id: the leading pad symbols are
    /// stripped and the remaining digits folded in base 35.  A character
    /// outside the alphabet fails with its position in the stripped code; a
    /// value beyond the machine word fails with `ValueOverflow`.
    pub fn to_usize(&self) -> (r: Result<usize, DecodeError>)
        ensures
            ({
                let t = strip_pad(self@);
                let fi = first_invalid(t);
                if fi == t.len() {
                    if code_value(t) <= usize::MAX as int {
                        r == Ok::<usize, DecodeError>(code_value(t) as usize)
                    } else {
                        r == Err::<usize, DecodeError>(DecodeError::ValueOverflow)
                    }
                } else if code_value(t.take(fi)) > usize::MAX as int {
                    r == Err::<usize, DecodeError>(DecodeError::ValueOverflow)
                } else {
                    r == Err::<usize, DecodeError>(DecodeError::UnknownSymbol {
                        symbol: t[fi],
                        position: fi as usize,
                    })
                }
            }),
    {
        let s: &str = self.experience_code.as_str();
        let n: usize = s.unicode_len();
        let mut t: usize = 0;
        while t < n && s.get_char(t) == 'A'
            invariant
                n == s@.len(),
                t <= n,
                forall|j: int| 0 <= j < t ==> s@[j] == 'A',
            decreases n - t,
        {
            t += 1;
        }
        proof {
            lemma_strip_prefix(s@, t as int);
        }
        let ghost stripped: Seq<char> = strip_pad(s@);
        let mut u: usize = 0;
        let mut i: usize = t;
        while i < n
            invariant
                s@ == self@,
                n == s@.len(),
                t <= i <= n,
                stripped == strip_pad(s@),
                stripped =~= s@.skip(t as int),
                forall|j: int| t <= j < i ==> is_symbol(s@[j]),
                u == code_value(s@.subrange(t as int, i as int)),
            decreases n - i,
        {
            let c: char = s.get_char(i);
            proof {
                assert(s@.subrange(t as int, i as int + 1).drop_last() =~= s@.subrange(
                    t as int,
                    i as int,
                ));
                assert(s@.subrange(t as int, i as int + 1).last() == s@[i as int]);
                assert(forall|j: int| 0 <= j <= i - t ==> stripped[j] == s@[t + j]);
                assert(forall|j: int| 0 <= j < i - t ==> is_symbol(stripped[j]));
                assert(stripped.take(i - t) =~= s@.subrange(t as int, i as int));
            }
            match symbol_value(c) {
                None => {
                    proof {
                        assert(!is_symbol(stripped[i - t]));
                        lemma_first_invalid_at(stripped, i - t);
                        assert(code_value(stripped.take(i - t)) == u);
                    }
                    return Err(DecodeError::UnknownSymbol { symbol: c, position: i - t });
                },
                Some(d) => {
                    let limit: usize = (usize::MAX - d) / 35;
                    proof {
                        assert(is_symbol(stripped[i - t]));
                        assert(forall|j: int| 0 <= j < i - t + 1 ==> is_symbol(stripped[j]));
                        assert(stripped.take(i - t + 1) =~= s@.subrange(t as int, i as int + 1));
                        assert(code_value(stripped.take(i - t + 1)) == u * 35 + d);
                    }
                    if u > limit {
                        proof {
                            assert(u * 35 + d > usize::MAX as int);
                            let fi = first_invalid(stripped);
                            lemma_first_invalid_bounds(stripped);
                            lemma_first_invalid_lower(stripped, i - t + 1);
                            lemma_code_value_mono(stripped, i - t + 1, fi);
                            assert(code_value(stripped.take(fi)) > usize::MAX as int);
                            if fi == stripped.len() {
                                assert(stripped.take(fi) =~= stripped);
                            }
                        }
                        return Err(DecodeError::ValueOverflow);
                    }
                    u = u * 35 + d;
                },
            }
            i += 1;
        }
        proof {
            assert(s@.subrange(t as int, n as int) =~= stripped);
            assert(forall|j: int| 0 <= j < stripped.len() ==> is_symbol(stripped[j]));
            lemma_first_invalid_lower(stripped, stripped.len() as int);
            lemma_first_invalid_bounds(stripped);
            assert(first_invalid(stripped) == stripped.len());
            assert(stripped.take(stripped.len() as int) =~= stripped);
        }
        Ok(u)
    }

    /// Validates the code: it must be at least three characters long and
    /// consist only of alphabet symbols.
    pub fn is_valid(&self) -> (r: Result<bool, InvalidCodeError>)
        ensures
            (self@.len() >= 3 && first_invalid(self@) == self@.len()) ==> r == Ok::<
                bool,
                InvalidCodeError,
            >(true),
            self@.len() < 3 ==> r == Err::<bool, InvalidCodeError>(InvalidCodeError::TooShort {
                length: self@.len() as usize,
            }),
            (self@.len() >= 3 && first_invalid(self@) < self@.len()) ==> r == Err::<
                bool,
                InvalidCodeError,
            >(InvalidCodeError::BadSymbol {
                symbol: self@[first_invalid(self@)],
                position: first_invalid(self@) as usize,
            }),
    {
        let s: &str = self.experience_code.as_str();
        let n: usize = s.unicode_len();
        if n < 3 {
            return Err(InvalidCodeError::TooShort { length: n });
        }
        let mut i: usize = 0;
        while i < n
            invariant
                s@ == self@,
                n == s@.len(),
                3 <= n,
                i <= n,
                forall|j: int| 0 <= j < i ==> is_symbol(s@[j]),
            decreases n - i,
        {
            let c: char = s.get_char(i);
            if symbol_value(c).is_none() {
                proof {
                    lemma_first_invalid_at(s@, i as int);
                }
                return Err(InvalidCodeError::BadSymbol { symbol: c, position: i });
            }
            i += 1;
        }
        proof {
            lemma_first_invalid_lower(s@, s@.len() as int);
            lemma_first_invalid_bounds(s@);
        }
        Ok(true)
    }
}

/// A run of pad symbols of length `t` is exactly what `strip_pad` removes.
proof fn lemma_strip_prefix(s: Seq<char>, t: int)
    requires
        0 <= t <= s.len(),
        forall|j: int| 0 <= j < t ==> s[j] == 'A',
        t < s.len() ==> s[t] != 'A',
    ensures
        strip_pad(s) =~= s.skip(t),
    decreases t,
{
    if t == 0 {
        if s.len() > 0 && s[0] == 'A' {
            assert(false);
        }
        assert(strip_pad(s) =~= s.skip(0));
    } else {
        assert(s[0] == 'A');
        let rest = s.drop_first();
        assert(forall|j: int| 0 <= j < t - 1 ==> rest[j] == s[j + 1]);
        lemma_strip_prefix(rest, t - 1);
        assert(rest.skip(t - 1) =~= s.skip(t));
    }
}

/// `first_invalid` is in bounds, everything before it is a symbol, and the
/// character at it (if any) is not.
pub proof fn lemma_first_invalid_bounds(s: Seq<char>)
    ensures
        0 <= first_invalid(s) <= s.len(),
        forall|j: int| 0 <= j < first_invalid(s) ==> is_symbol(s[j]),
        first_invalid(s) < s.len() ==> !is_symbol(s[first_invalid(s)]),
    decreases s.len(),
{
    if s.len() > 0 && is_symbol(s[0]) {
        lemma_first_invalid_bounds(s.drop_first());
        assert(forall|j: int| 1 <= j < first_invalid(s) ==> is_symbol(
            #[trigger] s[j],
        )) by {
            assert(forall|j: int| 0 <= j < first_invalid(s.drop_first()) ==> is_symbol(
                #[trigger] s.drop_first()[j],
            ));
            assert(forall|j: int| 1 <= j < first_invalid(s) ==> s[j] == s.drop_first()[j - 1]);
        }
    }
}

/// If the first `k` characters are symbols, the first invalid position is at
/// least `k`.
proof fn lemma_first_invalid_lower(s: Seq<char>, k: int)
    requires
        0 <= k <= s.len(),
        forall|j: int| 0 <= j < k ==> is_symbol(s[j]),
    ensures
        first_invalid(s) >= k,
    decreases k,
{
    if k > 0 {
        assert(is_symbol(s[0]));
        let rest = s.drop_first();
        assert(forall|j: int| 0 <= j < k - 1 ==> rest[j] == s[j + 1]);
        assert(forall|j: int| 0 <= j < k - 1 ==> is_symbol(rest[j]));
        lemma_first_invalid_lower(rest, k - 1);
        assert(first_invalid(s) == 1 + first_invalid(rest));
    } else {
        lemma_first_invalid_bounds(s);
    }
}

/// Pinpoints `first_invalid` at `i` when all earlier characters are symbols
/// and the one at `i` is not.
proof fn lemma_first_invalid_at(s: Seq<char>, i: int)
    requires
        0 <= i < s.len(),
        forall|j: int| 0 <= j < i ==> is_symbol(s[j]),
        !is_symbol(s[i]),
    ensures
        first_invalid(s) == i,
{
    lemma_first_invalid_bounds(s);
    lemma_first_invalid_lower(s, i);
    if first_invalid(s) > i {
        assert(is_symbol(s[i]));
    }
}

/// The value of an all-symbol digit string is non-negative.
pub proof fn lemma_code_value_nonneg(s: Seq<char>)
    requires
        forall|j: int| 0 <= j < s.len() ==> is_symbol(s[j]),
    ensures
        code_value(s) >= 0,
    decreases s.len(),
{
    if s.len() > 0 {
        let head = s.drop_last();
        assert(forall|j: int| 0 <= j < head.len() ==> head[j] == s[j]);
        lemma_code_value_nonneg(head);
        assert(is_symbol(s.last()));
    }
}

/// Folding more valid digits can only grow the value.
proof fn lemma_code_value_mono(s: Seq<char>, i: int, j: int)
    requires
        0 <= i <= j <= s.len(),
        forall|k: int| 0 <= k < j ==> is_symbol(s[k]),
    ensures
        code_value(s.take(i)) <= code_value(s.take(j)),
    decreases j - i,
{
    if i < j {
        let prev = s.take(j - 1);
        assert(s.take(j).drop_last() =~= prev);
        assert(s.take(j).last() == s[j - 1]);
        assert(forall|k: int| 0 <= k < prev.len() ==> prev[k] == s[k]);
        lemma_code_value_nonneg(prev);
        assert(code_value(s.take(j)) == code_value(prev) * 35 + sym_val(s[j - 1]));
        assert(code_value(prev) * 35 >= code_value(prev));
        lemma_code_value_mono(s, i, j - 1);
    }
}

/// The symbol of digit `d` carries value `d`, and only digit 0 maps to the
/// pad symbol.
proof fn lemma_sym_char_val(d: int)
    requires
        0 <= d < 35,
    ensures
        sym_val(sym_char(d)) == d,
        d > 0 ==> sym_char(d) != 'A',
{
}

/// Every digit of an encoding is an alphabet symbol, and the leading digit of
/// a positive id is never the pad symbol.
proof fn lemma_code_digits_valid(u: nat)
    ensures
        forall|j: int| 0 <= j < code_digits(u).len() ==> is_symbol(#[trigger] code_digits(u)[j]),
        u > 0 ==> code_digits(u).len() > 0 && code_digits(u)[0] != 'A',
    decreases u,
{
    if u > 0 {
        lemma_code_digits_valid(u / 35);
        lemma_sym_char_val((u % 35) as int);
        if u / 35 == 0 {
            assert(code_digits((u / 35) as nat) =~= Seq::<char>::empty());
            assert(code_digits(u) =~= seq![sym_char((u % 35) as int)]);
            assert(u % 35 == u);
        }
    }
}

/// Stripping the pad from an encoding leaves exactly the digit string.
proof fn lemma_strip_encoding(u: nat)
    ensures
        strip_pad(encoding_of(u)) == code_digits(u),
{
    lemma_code_digits_valid(u);
    let e = encoding_of(u);
    let one = seq!['A'] + code_digits(u);
    assert(e.len() > 0 && e[0] == 'A');
    assert(e.drop_first() =~= one);
    assert(strip_pad(e) == strip_pad(one));
    assert(one.len() > 0 && one[0] == 'A');
    assert(one.drop_first() =~= code_digits(u));
    assert(strip_pad(one) == strip_pad(code_digits(u)));
    if code_digits(u).len() > 0 {
        assert(code_digits(u)[0] != 'A');
        assert(strip_pad(code_digits(u)) == code_digits(u));
    } else {
        assert(strip_pad(code_digits(u)) == code_digits(u));
    }
}

/// Folding the digit string of `u` recovers `u`.
proof fn lemma_code_digits_value(u: nat)
    ensures
        code_value(code_digits(u)) == u,
    decreases u,
{
    if u > 0 {
        lemma_code_digits_value(u / 35);
        lemma_sym_char_val((u % 35) as int);
        let ds = code_digits(u);
        assert(ds.drop_last() =~= code_digits(u / 35));
        assert(ds.last() == sym_char((u % 35) as int));
    }
}

/// Law: decoding an encoded id always yields the id back — the stripped
/// encoding consists solely of alphabet symbols and folds to the original
/// value, for every non-negative id.
pub proof fn lemma_encode_round_trip(u: nat)
    ensures
        first_invalid(strip_pad(encoding_of(u))) == strip_pad(encoding_of(u)).len(),
        code_value(strip_pad(encoding_of(u))) == u,
{
    lemma_strip_encoding(u);
    lemma_code_digits_valid(u);
    lemma_code_digits_value(u);
    lemma_first_invalid_lower(code_digits(u), code_digits(u).len() as int);
    lemma_first_invalid_bounds(code_digits(u));
}

/// Law: the encoding of id 0 is nothing but the pad symbol at minimum width.
pub proof fn lemma_encode_zero()
    ensures
        encoding_of(0) == seq!['A', 'A'],
{
    assert(encoding_of(0) =~= seq!['A', 'A']);
}

} // verus!
