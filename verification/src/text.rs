//! Character-level helpers: decimal numbers, whitespace and line splitting.

use vstd::prelude::*;
use vstd::slice::slice_subrange;

verus! {

/// `String::push` appends one character to the end of the string.
pub assume_specification[ String::push ](s: &mut String, ch: char)
    ensures
        final(s)@ == old(s)@.push(ch),
;

/// The characters of a string slice, in order.
pub fn to_chars(s: &str) -> (v: Vec<char>)
    ensures
        v@ == s@,
{
    let mut v: Vec<char> = Vec::new();
    for c in it: s.chars()
        invariant
            v@ == it.seq().take(it.index() as int),
            it.seq() == s@,
    {
        v.push(c);
    }
    v
}

/// Why a piece of text is not a decimal number of the type asked for.
#[derive(Clone, Copy, Debug, PartialEq, Eq, Structural)]
pub enum NumberError {
    /// The text is empty.
    Empty,
    /// A character that is not a decimal digit comes before any overflow, or
    /// there is no digit at all.
    InvalidDigit,
    /// The digits name a number above the largest of the type.
    PosOverflow,
    /// The digits behind a `-` name a number below the smallest of the type.
    NegOverflow,
}

/// Whether `c` is one of the ten decimal digits.
pub open spec fn is_digit(c: char) -> bool {
    '0' <= c && c <= '9'
}

/// The number that the decimal digit `c` stands for.
pub open spec fn digit_value(c: char) -> nat {
    (c as u32 - '0' as u32) as nat
}

/// The number that a sequence of decimal digits denotes.
pub open spec fn decimal_value(s: Seq<char>) -> nat
    decreases s.len(),
{
    if s.len() == 0 {
        0
    } else {
        decimal_value(s.drop_last()) * 10 + digit_value(s.last())
    }
}

/// Length of the longest prefix of `s` that consists of decimal digits.
pub open spec fn leading_digits(s: Seq<char>) -> nat
    decreases s.len(),
{
    if s.len() == 0 || !is_digit(s[0]) {
        0
    } else {
        1 + leading_digits(s.drop_first())
    }
}

/// Reading of `digits` as a number of at most `bound`: digits and nothing
/// else.
///
/// Of an overflow and a foreign character, the one that comes first from the
/// left decides the error.
pub open spec fn spec_parse_magnitude(digits: Seq<char>, bound: nat) -> Result<nat, NumberError> {
    let k = leading_digits(digits) as int;
    if decimal_value(digits.take(k)) > bound {
        Err(NumberError::PosOverflow)
    } else if k < digits.len() {
        Err(NumberError::InvalidDigit)
    } else {
        Ok(decimal_value(digits))
    }
}

/// The text after an optional leading `+`.
pub open spec fn unsigned_digits(s: Seq<char>) -> Seq<char> {
    if s.len() > 0 && s[0] == '+' {
        s.drop_first()
    } else {
        s
    }
}

/// Reading of `s` as an unsigned 64-bit decimal number: an optional `+`, then
/// one or more digits and nothing else.
pub open spec fn spec_parse_u64(s: Seq<char>) -> Result<u64, NumberError> {
    let digits = unsigned_digits(s);
    if s.len() == 0 {
        Err(NumberError::Empty)
    } else if digits.len() == 0 {
        Err(NumberError::InvalidDigit)
    } else {
        match spec_parse_magnitude(digits, u64::MAX as nat) {
            Ok(v) => Ok(v as u64),
            Err(e) => Err(e),
        }
    }
}

/// Whether `s` starts with a `-`.
pub open spec fn is_negative(s: Seq<char>) -> bool {
    s.len() > 0 && s[0] == '-'
}

/// The text after an optional leading `+` or `-`.
pub open spec fn signed_digits(s: Seq<char>) -> Seq<char> {
    if s.len() > 0 && (s[0] == '+' || s[0] == '-') {
        s.drop_first()
    } else {
        s
    }
}

/// Reading of `s` as a signed 32-bit decimal number: an optional `+` or `-`,
/// then one or more digits and nothing else.
pub open spec fn spec_parse_i32(s: Seq<char>) -> Result<i32, NumberError> {
    let digits = signed_digits(s);
    if s.len() == 0 {
        Err(NumberError::Empty)
    } else if digits.len() == 0 {
        Err(NumberError::InvalidDigit)
    } else if is_negative(s) {
        match spec_parse_magnitude(digits, 0x8000_0000) {
            Ok(v) => Ok((-v) as i32),
            Err(NumberError::PosOverflow) => Err(NumberError::NegOverflow),
            Err(e) => Err(e),
        }
    } else {
        match spec_parse_magnitude(digits, 0x7fff_ffff) {
            Ok(v) => Ok(v as i32),
            Err(e) => Err(e),
        }
    }
}

/// A run of `k` digits that ends with the text or before another character
/// is the text's leading digits.
proof fn lemma_leading_digits(s: Seq<char>, k: int)
    requires
        0 <= k <= s.len(),
        forall|j: int| 0 <= j < k ==> is_digit(#[trigger] s[j]),
        k == s.len() || !is_digit(s[k]),
    ensures
        leading_digits(s) == k,
    decreases k,
{
    if k > 0 {
        let t = s.drop_first();
        assert forall|j: int| 0 <= j < k - 1 implies is_digit(#[trigger] t[j]) by {
            assert(t[j] == s[j + 1]);
        }
        lemma_leading_digits(t, k - 1);
    }
}

/// The character just behind the leading digits, if there is one, is no digit.
proof fn lemma_leading_digits_at(s: Seq<char>, k: int)
    requires
        k == leading_digits(s),
    ensures
        k <= s.len(),
        k < s.len() ==> !is_digit(s[k]),
        forall|j: int| 0 <= j < k ==> is_digit(#[trigger] s[j]),
    decreases s.len(),
{
    if s.len() != 0 && is_digit(s[0]) {
        let t = s.drop_first();
        lemma_leading_digits_at(t, k - 1);
        assert forall|j: int| 0 <= j < k implies is_digit(#[trigger] s[j]) by {
            if j > 0 {
                assert(s[j] == t[j - 1]);
            }
        }
        if k < s.len() {
            assert(s[k] == t[k - 1]);
        }
    }
}

proof fn lemma_leading_digits_bound(s: Seq<char>)
    ensures
        leading_digits(s) <= s.len(),
    decreases s.len(),
{
    if s.len() != 0 && is_digit(s[0]) {
        lemma_leading_digits_bound(s.drop_first());
    }
}

proof fn lemma_decimal_value_step(s: Seq<char>, i: int)
    requires
        0 <= i < s.len(),
    ensures
        decimal_value(s.take(i + 1)) == decimal_value(s.take(i)) * 10 + digit_value(s[i]),
{
    assert(s.take(i + 1).drop_last() =~= s.take(i));
}

proof fn lemma_decimal_value_monotone(s: Seq<char>, a: int, b: int)
    requires
        0 <= a <= b <= s.len(),
    ensures
        decimal_value(s.take(a)) <= decimal_value(s.take(b)),
    decreases b - a,
{
    if a < b {
        lemma_decimal_value_monotone(s, a, b - 1);
        lemma_decimal_value_step(s, b - 1);
    }
}

/// The value of a decimal digit, or `None` for any other character.
pub fn digit_of(c: char) -> (d: Option<u8>)
    ensures
        d is Some <==> is_digit(c),
        d matches Some(v) ==> v as nat == digit_value(c) && v <= 9,
{
    if c >= '0' && c <= '9' {
        Some((c as u32 - '0' as u32) as u8)
    } else {
        None
    }
}

/// Parses a number of at most `bound` that is written in digits alone.
pub fn parse_magnitude(digits: &[char], bound: u64) -> (r: Result<u64, NumberError>)
    ensures
        match r {
            Ok(v) => spec_parse_magnitude(digits@, bound as nat) == Ok::<nat, NumberError>(
                v as nat,
            ),
            Err(e) => spec_parse_magnitude(digits@, bound as nat) == Err::<nat, NumberError>(e),
        },
        r matches Ok(v) ==> v <= bound,
        r matches Err(e) ==> e == NumberError::PosOverflow || e == NumberError::InvalidDigit,
{
    let n = digits.len();
    let mut acc: u64 = 0;
    let mut i: usize = 0;
    while i < n
        invariant
            i <= n,
            n == digits@.len(),
            forall|j: int| 0 <= j < i ==> is_digit(#[trigger] digits@[j]),
            acc == decimal_value(digits@.take(i as int)),
            acc <= bound,
        decreases n - i,
    {
        proof {
            lemma_decimal_value_step(digits@, i as int);
            lemma_leading_digits_bound(digits@);
        }
        match digit_of(digits[i]) {
            None => {
                proof {
                    lemma_leading_digits(digits@, i as int);
                }
                return Err(NumberError::InvalidDigit);
            },
            Some(d) => {
                let next = match acc.checked_mul(10) {
                    Some(m) => m.checked_add(d as u64),
                    None => None,
                };
                match next {
                    Some(v) if v <= bound => {
                        acc = v;
                    },
                    _ => {
                        proof {
                            let full = leading_digits(digits@) as int;
                            if full < i + 1 {
                                lemma_leading_digits_at(digits@, full);
                            }
                            lemma_decimal_value_monotone(digits@, i + 1, full);
                        }
                        return Err(NumberError::PosOverflow);
                    },
                }
            },
        }
        i += 1;
    }
    proof {
        lemma_leading_digits(digits@, n as int);
        assert(digits@.take(n as int) =~= digits@);
    }
    Ok(acc)
}

/// Parses an unsigned 64-bit decimal number.
pub fn parse_u64(s: &[char]) -> (r: Result<u64, NumberError>)
    ensures
        r == spec_parse_u64(s@),
{
    let n = s.len();
    if n == 0 {
        return Err(NumberError::Empty);
    }
    let start: usize = if s[0] == '+' { 1 } else { 0 };
    if start == n {
        return Err(NumberError::InvalidDigit);
    }
    let digits = slice_subrange(s, start, n);
    assert(digits@ =~= unsigned_digits(s@));
    parse_magnitude(digits, u64::MAX)
}

/// Parses a signed 32-bit decimal number.
pub fn parse_i32(s: &[char]) -> (r: Result<i32, NumberError>)
    ensures
        r == spec_parse_i32(s@),
{
    let n = s.len();
    if n == 0 {
        return Err(NumberError::Empty);
    }
    let negative = s[0] == '-';
    let start: usize = if negative || s[0] == '+' { 1 } else { 0 };
    if start == n {
        return Err(NumberError::InvalidDigit);
    }
    let digits = slice_subrange(s, start, n);
    assert(digits@ =~= signed_digits(s@));
    if negative {
        match parse_magnitude(digits, 0x8000_0000) {
            Ok(v) => Ok((0 - v as i64) as i32),
            Err(NumberError::PosOverflow) => Err(NumberError::NegOverflow),
            Err(e) => Err(e),
        }
    } else {
        match parse_magnitude(digits, 0x7fff_ffff) {
            Ok(v) => Ok(v as i32),
            Err(e) => Err(e),
        }
    }
}

/// Whether `c` is white space in the sense of Unicode.
pub open spec fn is_whitespace(c: char) -> bool {
    ||| '\u{0009}' <= c <= '\u{000D}'
    ||| c == ' '
    ||| c == '\u{0085}'
    ||| c == '\u{00A0}'
    ||| c == '\u{1680}'
    ||| '\u{2000}' <= c <= '\u{200A}'
    ||| c == '\u{2028}'
    ||| c == '\u{2029}'
    ||| c == '\u{202F}'
    ||| c == '\u{205F}'
    ||| c == '\u{3000}'
}

/// Whether a character is white space in the sense of Unicode.
pub fn whitespace(c: char) -> (b: bool)
    ensures
        b == is_whitespace(c),
{
    (c >= '\u{0009}' && c <= '\u{000D}') || c == ' ' || c == '\u{0085}' || c == '\u{00A0}'
        || c == '\u{1680}' || (c >= '\u{2000}' && c <= '\u{200A}') || c == '\u{2028}'
        || c == '\u{2029}' || c == '\u{202F}' || c == '\u{205F}' || c == '\u{3000}'
}

/// The characters that are stripped from the ends of a text.
#[derive(Clone, Copy, Debug, PartialEq, Eq, Structural)]
pub enum Padding {
    /// White space in the sense of Unicode.
    Whitespace,
    /// The NUL character.
    Nul,
    /// The separator of paths and names, `/`.
    Separator,
}

impl Padding {
    /// Whether `c` is of these characters.
    pub open spec fn spec_holds(self, c: char) -> bool {
        match self {
            Padding::Whitespace => is_whitespace(c),
            Padding::Nul => c == '\0',
            Padding::Separator => c == '/',
        }
    }

    /// Whether `c` is of these characters.
    pub fn holds(&self, c: char) -> (b: bool)
        ensures
            b == self.spec_holds(c),
    {
        match self {
            Padding::Whitespace => whitespace(c),
            Padding::Nul => c == '\0',
            Padding::Separator => c == '/',
        }
    }
}

/// `s` without the characters of `padding` at its start.
pub open spec fn strip_start(s: Seq<char>, padding: Padding) -> Seq<char>
    decreases s.len(),
{
    if s.len() > 0 && padding.spec_holds(s[0]) {
        strip_start(s.drop_first(), padding)
    } else {
        s
    }
}

/// `s` without the characters of `padding` at its end.
pub open spec fn strip_end(s: Seq<char>, padding: Padding) -> Seq<char>
    decreases s.len(),
{
    if s.len() > 0 && padding.spec_holds(s.last()) {
        strip_end(s.drop_last(), padding)
    } else {
        s
    }
}

/// `s` without the characters of `padding` at either end.
pub open spec fn strip(s: Seq<char>, padding: Padding) -> Seq<char> {
    strip_end(strip_start(s, padding), padding)
}

/// `s` without the white space at either end.
pub open spec fn spec_trim(s: Seq<char>) -> Seq<char> {
    strip(s, Padding::Whitespace)
}

/// `s` without the NUL characters at its end.
pub open spec fn strip_nul(s: Seq<char>) -> Seq<char> {
    strip_end(s, Padding::Nul)
}

/// The part of `s` behind the characters of `padding` at its start.
pub fn without_start(s: &[char], padding: Padding) -> (r: &[char])
    ensures
        r@ == strip_start(s@, padding),
{
    let n = s.len();
    let mut a: usize = 0;
    assert(s@.skip(0) =~= s@);
    while a < n && padding.holds(s[a])
        invariant
            a <= n,
            n == s@.len(),
            strip_start(s@, padding) == strip_start(s@.skip(a as int), padding),
        decreases n - a,
    {
        assert(s@.skip(a as int).drop_first() =~= s@.skip(a + 1));
        a += 1;
    }
    assert(s@.skip(a as int) =~= s@.subrange(a as int, n as int));
    slice_subrange(s, a, n)
}

/// The part of `s` before the characters of `padding` at its end.
pub fn without_end(s: &[char], padding: Padding) -> (r: &[char])
    ensures
        r@ == strip_end(s@, padding),
{
    let mut b: usize = s.len();
    assert(s@.take(b as int) =~= s@);
    while b > 0 && padding.holds(s[b - 1])
        invariant
            b <= s@.len(),
            strip_end(s@, padding) == strip_end(s@.take(b as int), padding),
        decreases b,
    {
        assert(s@.take(b as int).drop_last() =~= s@.take(b - 1));
        b -= 1;
    }
    assert(s@.take(b as int) =~= s@.subrange(0, b as int));
    slice_subrange(s, 0, b)
}

/// The part of `s` between its leading and its trailing white space.
pub fn trim(s: &[char]) -> (r: &[char])
    ensures
        r@ == spec_trim(s@),
{
    without_end(without_start(s, Padding::Whitespace), Padding::Whitespace)
}

/// The string of the characters `s`.
pub fn string_of(s: &[char]) -> (r: String)
    ensures
        r@ == s@,
{
    let mut r = String::new();
    let mut i: usize = 0;
    while i < s.len()
        invariant
            i <= s@.len(),
            r@ == s@.take(i as int),
        decreases s@.len() - i,
    {
        r.push(s[i]);
        assert(s@.take(i + 1) =~= s@.take(i as int).push(s@[i as int]));
        i += 1;
    }
    assert(s@.take(i as int) =~= s@);
    r
}

/// Offset of the first line feed in `s`, or the length of `s` if it holds none.
pub open spec fn newline_at(s: Seq<char>) -> nat
    decreases s.len(),
{
    if s.len() == 0 || s[0] == '\n' {
        0
    } else {
        1 + newline_at(s.drop_first())
    }
}

/// A line without the carriage return that may stand before its line feed.
pub open spec fn strip_cr(line: Seq<char>) -> Seq<char> {
    if line.len() > 0 && line.last() == '\r' {
        line.drop_last()
    } else {
        line
    }
}

/// The lines of a text. A line ends with a line feed, or with a carriage
/// return and a line feed, and neither belongs to it; the last line may end
/// with the text, and then keeps a carriage return at its end. A line feed at
/// the very end opens no further line.
pub open spec fn lines(s: Seq<char>) -> Seq<Seq<char>>
    decreases s.len(),
{
    let k = newline_at(s) as int;
    if s.len() == 0 {
        Seq::empty()
    } else if k >= s.len() {
        seq![s]
    } else {
        seq![strip_cr(s.take(k))] + lines(s.skip(k + 1))
    }
}

/// The first line feed is where one stands and none stands before.
proof fn lemma_newline_at(s: Seq<char>, k: int)
    requires
        0 <= k <= s.len(),
        forall|j: int| 0 <= j < k ==> #[trigger] s[j] != '\n',
        k == s.len() || s[k] == '\n',
    ensures
        newline_at(s) == k,
    decreases k,
{
    if k > 0 {
        let t = s.drop_first();
        assert forall|j: int| 0 <= j < k - 1 implies #[trigger] t[j] != '\n' by {
            assert(t[j] == s[j + 1]);
        }
        lemma_newline_at(t, k - 1);
    }
}

/// Where the line that starts at `from` ends: the position of the next line
/// feed, or the end of the text.
pub fn find_newline(text: &[char], from: usize) -> (end: usize)
    requires
        from <= text@.len(),
    ensures
        from <= end <= text@.len(),
        end == from + newline_at(text@.skip(from as int)),
{
    let n = text.len();
    let mut i: usize = from;
    while i < n && text[i] != '\n'
        invariant
            from <= i <= n,
            n == text@.len(),
            forall|j: int| from <= j < i ==> #[trigger] text@[j] != '\n',
        decreases n - i,
    {
        i += 1;
    }
    proof {
        let rest = text@.skip(from as int);
        assert forall|j: int| 0 <= j < i - from implies #[trigger] rest[j] != '\n' by {
            assert(rest[j] == text@[from + j]);
        }
        lemma_newline_at(rest, i - from);
    }
    i
}

/// The character of the decimal digit `d`.
pub open spec fn digit_char(d: nat) -> char {
    (d + 48) as char
}

/// The decimal digits of `n`, without leading zeros.
pub open spec fn decimal_digits(n: nat) -> Seq<char>
    decreases n,
{
    if n < 10 {
        seq![digit_char(n)]
    } else {
        decimal_digits(n / 10).push(digit_char(n % 10))
    }
}

/// `n` in decimal, with a `-` in front where it is negative.
pub open spec fn decimal_text(n: int) -> Seq<char> {
    if n < 0 {
        seq!['-'] + decimal_digits((-n) as nat)
    } else {
        decimal_digits(n as nat)
    }
}

/// Appends `n` in decimal to `out`.
pub fn push_decimal(out: &mut String, n: i32)
    ensures
        final(out)@ == old(out)@ + decimal_text(n as int),
{
    let ghost before = out@;
    let mut rest: u32 = if n < 0 {
        out.push('-');
        (0 - n as i64) as u32
    } else {
        n as u32
    };
    let ghost sign = out@;
    let ghost magnitude = rest as nat;
    assert(sign + decimal_digits(magnitude) =~= before + decimal_text(n as int));
    // The digits from the last to the first.
    let mut low: Vec<char> = Vec::new();
    while rest >= 10
        invariant
            decimal_digits(magnitude) == decimal_digits(rest as nat) + low@.reverse(),
        decreases rest,
    {
        let d = (rest % 10) as u8;
        let ghost prior = low@;
        low.push((d + 48) as char);
        assert(low@.reverse() =~= seq![digit_char(d as nat)] + prior.reverse());
        assert(decimal_digits(rest as nat) + prior.reverse() =~= decimal_digits(
            (rest / 10) as nat,
        ) + low@.reverse());
        rest = rest / 10;
    }
    out.push((rest as u8 + 48) as char);
    let ghost first = out@;
    let mut i: usize = low.len();
    while i > 0
        invariant
            i <= low@.len(),
            out@ == first + low@.reverse().take(low@.len() - i),
        decreases i,
    {
        i -= 1;
        out.push(low[i]);
        assert(low@.reverse().take(low@.len() - i) =~= low@.reverse().take(low@.len() - i - 1).push(
            low@[i as int],
        ));
    }
    assert(low@.reverse().take(low@.len() as int) =~= low@.reverse());
    assert(out@ =~= sign + decimal_digits(magnitude));
}

} // verus!
