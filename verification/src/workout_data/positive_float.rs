//! A non-negative fixed-point number with exactly two fractional digits,
//! the value type of every duration and power figure in a workout.
//!
//! A `PositiveFloat` counts hundredths: the stored integer `1050` stands for
//! the course-file number `10.50`.
use crate::text::chars_to_string;
use crate::text::find_char;
use crate::text::find_char_vec;
use crate::text::lemma_find_char_clean_concat;
use crate::text::str_to_chars;
use crate::text::subvec;
use crate::text::trim_chars;
use crate::text::trim_spec;
use crate::workout_data::ToMRC;
use crate::MAX_HUNDREDTHS;
use vstd::prelude::*;
use vstd::string::StringExecFns;

verus! {

/// A non-negative number, counted in hundredths of a unit.
#[derive(Debug, Clone, Copy, PartialEq, Eq, Structural)]
pub struct PositiveFloat {
    hundredths: u64,
}

/// Errors that occur during the creation of a `PositiveFloat`.
#[derive(Debug, Clone, PartialEq)]
pub enum InvalidPositiveFloatError {
    /// A negative number was provided; carries the offending value in
    /// hundredths.
    ProvidedNonPositiveNumber { number: i64 },
    /// The text did not denote a number this type can hold.
    InvalidStringToParse { message: String },
}

/// The decimal digit character for `n < 10`.
pub open spec fn digit_char(n: nat) -> char {
    (48 + n) as char
}

/// Is `c` one of `'0'..='9'`?
pub open spec fn is_digit_char(c: char) -> bool {
    '0' <= c && c <= '9'
}

/// Numeric value of a digit character.
pub open spec fn digit_val(c: char) -> nat {
    (c as nat - 48) as nat
}

/// Does `s` consist of digit characters only?
pub open spec fn all_digits(s: Seq<char>) -> bool {
    forall|i: int| 0 <= i < s.len() ==> is_digit_char(#[trigger] s[i])
}

/// The number denoted by a sequence of digit characters, read left to right.
pub open spec fn digits_val(s: Seq<char>) -> nat
    decreases s.len(),
{
    if s.len() == 0 {
        0
    } else {
        digits_val(s.drop_last()) * 10 + digit_val(s.last())
    }
}

/// The shortest decimal digit string for `n`: `0 -> "0"`, `1050 -> "1050"`.
pub open spec fn dec_digits(n: nat) -> Seq<char>
    decreases n,
{
    if n < 10 {
        seq![digit_char(n)]
    } else {
        dec_digits(n / 10).push(digit_char(n % 10))
    }
}

/// How a count of hundredths is written in a course file: the integer part,
/// a dot, then exactly two fractional digits.
pub open spec fn render_hundredths(h: nat) -> Seq<char> {
    dec_digits(h / 100) + seq!['.', digit_char((h % 100) / 10), digit_char(h % 10)]
}

impl PositiveFloat {
    /// The stored count of hundredths.
    pub closed spec fn value(&self) -> nat {
        self.hundredths as nat
    }

    /// Every `PositiveFloat` stays within the machine bound.
    #[verifier::type_invariant]
    pub open spec fn bounded(self) -> bool {
        self.value() <= MAX_HUNDREDTHS
    }

    /// Try to create a new number from a count of hundredths.
    pub fn new(hundredths: i64) -> (result: Result<Self, InvalidPositiveFloatError>)
        requires
            hundredths <= MAX_HUNDREDTHS as i64,
        ensures
            match result {
                Ok(p) => hundredths >= 0 && p.value() == hundredths,
                Err(e) => hundredths < 0 && e == (InvalidPositiveFloatError::ProvidedNonPositiveNumber {
                    number: hundredths,
                }),
            },
    {
        if hundredths >= 0 {
            return Ok(Self { hundredths: hundredths as u64 });
        }
        Err(InvalidPositiveFloatError::ProvidedNonPositiveNumber { number: hundredths })
    }

    /// Wrap a known-good count of hundredths.
    pub(crate) fn from_hundredths(h: u64) -> (r: PositiveFloat)
        requires
            h <= MAX_HUNDREDTHS,
        ensures
            r.value() == h,
    {
        PositiveFloat { hundredths: h }
    }

    /// The count of hundredths as a plain integer.
    pub fn to_hundredths(&self) -> (r: u64)
        ensures
            r == self.value(),
            r <= MAX_HUNDREDTHS,
    {
        proof {
            use_type_invariant(self);
        }
        self.hundredths
    }

    /// Convert the number to the form it takes in a crm file: exactly two
    /// digits after the decimal point.
    pub fn to_crm(&self) -> (r: String)
        ensures
            r@ == render_hundredths(self.value()),
    {
        render_u64_hundredths(self.hundredths)
    }

    /// Sum of two numbers.
    pub fn plus(&self, other: &PositiveFloat) -> (r: Result<PositiveFloat, InvalidPositiveFloatError>)
        ensures
            match r {
                Ok(p) => self.value() + other.value() <= MAX_HUNDREDTHS && p.value() == self.value()
                    + other.value(),
                Err(_) => self.value() + other.value() > MAX_HUNDREDTHS,
            },
    {
        proof {
            use_type_invariant(self);
            use_type_invariant(other);
        }
        let total: u64 = self.hundredths + other.hundredths;
        if total <= MAX_HUNDREDTHS {
            Ok(PositiveFloat { hundredths: total })
        } else {
            Err(InvalidPositiveFloatError::InvalidStringToParse {
                message: String::from_str("number out of range"),
            })
        }
    }
}

impl PositiveFloat {
    /// Read a number from text, after trimming surrounding whitespace.
    pub fn try_from(potential_float: String) -> (result: Result<Self, InvalidPositiveFloatError>)
        ensures
            match result {
                Ok(p) => parse_decimal(trim_spec(potential_float@)) == Some(p.value() as int)
                    && p.value() <= MAX_HUNDREDTHS,
                Err(e) => match e {
                    InvalidPositiveFloatError::ProvidedNonPositiveNumber { number } => parse_decimal(
                        trim_spec(potential_float@),
                    ) == Some(number as int) && number < 0,
                    InvalidPositiveFloatError::InvalidStringToParse { message } => (parse_decimal(
                        trim_spec(potential_float@),
                    ) is None && message@ == "invalid float literal"@) || (parse_decimal(
                        trim_spec(potential_float@),
                    ) matches Some(x) && (x > MAX_HUNDREDTHS as int || x < -(MAX_HUNDREDTHS as int))
                        && message@ == "number out of range"@),
                },
            },
    {
        let chars = str_to_chars(potential_float.as_str());
        let trimmed = trim_chars(&chars);
        match parse_decimal_chars(&trimmed) {
            ParseOutcome::Val(x) => {
                if x >= 0 {
                    Ok(Self { hundredths: x as u64 })
                } else {
                    Err(InvalidPositiveFloatError::ProvidedNonPositiveNumber { number: x })
                }
            },
            ParseOutcome::TooBig => Err(InvalidPositiveFloatError::InvalidStringToParse {
                message: String::from_str("number out of range"),
            }),
            ParseOutcome::BadSyntax => Err(InvalidPositiveFloatError::InvalidStringToParse {
                message: String::from_str("invalid float literal"),
            }),
        }
    }

    /// Read a number from text exactly as given, without trimming.
    pub fn from_text(s: &str) -> (r: Option<PositiveFloat>)
        ensures
            match r {
                Some(p) => parse_decimal(s@) == Some(p.value() as int) && p.value()
                    <= MAX_HUNDREDTHS,
                None => !(parse_decimal(s@) matches Some(x) && 0 <= x <= MAX_HUNDREDTHS as int),
            },
    {
        let chars = str_to_chars(s);
        match parse_decimal_chars(&chars) {
            ParseOutcome::Val(x) => {
                if x >= 0 {
                    Some(Self { hundredths: x as u64 })
                } else {
                    None
                }
            },
            _ => None,
        }
    }
}

/// A digit character is none of the punctuation or whitespace characters the
/// surrounding formats use.
pub proof fn lemma_digit_char_plain(c: char)
    requires
        is_digit_char(c),
    ensures
        c != '.' && c != '-' && c != '+' && c != '\t' && c != '\n' && c != '\r' && c != ' ',
        c != '[',
        !crate::text::is_ascii_space(c),
{
}

/// Facts about the digit character of `n < 10`.
pub proof fn lemma_digit_char_val(n: nat)
    requires
        n < 10,
    ensures
        is_digit_char(digit_char(n)),
        digit_val(digit_char(n)) == n,
{
}

/// The decimal digit string of `n` holds digits only and denotes `n`.
pub proof fn lemma_dec_digits(n: nat)
    ensures
        dec_digits(n).len() >= 1,
        all_digits(dec_digits(n)),
        digits_val(dec_digits(n)) == n,
    decreases n,
{
    if n < 10 {
        lemma_digit_char_val(n);
        let s = dec_digits(n);
        assert(s.drop_last() =~= Seq::<char>::empty());
        assert(digits_val(s) == digits_val(s.drop_last()) * 10 + digit_val(s.last()));
    } else {
        lemma_dec_digits(n / 10);
        lemma_digit_char_val(n % 10);
        let s = dec_digits(n / 10);
        let full = dec_digits(n);
        assert(full == s.push(digit_char(n % 10)));
        assert(full.drop_last() =~= s);
        assert(digits_val(full) == digits_val(s) * 10 + digit_val(full.last()));
        assert(digits_val(full) == (n / 10) * 10 + n % 10);
        assert forall|i: int| 0 <= i < full.len() implies is_digit_char(#[trigger] full[i]) by {
            if i < s.len() {
                assert(full[i] == s[i]);
            } else {
                assert(full[i] == digit_char(n % 10));
            }
        }
    }
}

/// Law: reading a rendered count of hundredths back yields the same count,
/// and the rendering holds only digits and a single dot.
pub proof fn lemma_parse_render(h: nat)
    ensures
        parse_decimal(render_hundredths(h)) == Some(h as int),
        find_char(render_hundredths(h), '.') == Some(dec_digits(h / 100).len() as int),
        unsigned_ok(render_hundredths(h)),
        forall|i: int|
            0 <= i < render_hundredths(h).len() ==> (is_digit_char(#[trigger] render_hundredths(h)[i])
                || render_hundredths(h)[i] == '.'),
{
    let a = dec_digits(h / 100);
    let d1 = digit_char((h % 100) / 10);
    let d2 = digit_char(h % 10);
    let b = seq!['.', d1, d2];
    let s = render_hundredths(h);
    assert(s == a + b);
    lemma_dec_digits(h / 100);
    lemma_digit_char_val((h % 100) / 10);
    lemma_digit_char_val(h % 10);
    assert forall|j: int| 0 <= j < a.len() implies a[j] != '.' by {
        lemma_digit_char_plain(a[j]);
    }
    assert(find_char(b, '.') == Some(0int));
    lemma_find_char_clean_concat(a, b, '.');
    assert(find_char(s, '.') == Some(a.len() as int));
    let frac = s.skip(a.len() as int + 1);
    assert(s.take(a.len() as int) =~= a);
    assert(frac =~= seq![d1, d2]);
    assert(unsigned_ok(s));
    assert(frac.len() == 2);
    assert(frac_hundredths(frac) == digit_val(d1) * 10 + digit_val(d2));
    assert((h % 100) % 10 == h % 10) by {
        vstd::arithmetic::div_mod::lemma_mod_mod(h as int, 10, 10);
    }
    assert(digit_val(d1) * 10 + digit_val(d2) == h % 100);
    assert(unsigned_val(s) == (h / 100) * 100 + h % 100);
    assert(unsigned_val(s) == h);
    assert(s[0] == a[0]);
    lemma_digit_char_plain(a[0]);
    assert(parse_decimal(s) == Some(h as int));
    assert forall|i: int| 0 <= i < s.len() implies (is_digit_char(#[trigger] s[i]) || s[i] == '.') by {
        if i < a.len() {
            assert(s[i] == a[i]);
        } else {
            assert(s[i] == b[i - a.len()]);
        }
    }
}

/// Law: a rendered number shows exactly two digits after a single decimal
/// point, wherever the number came from.
pub proof fn lemma_render_two_decimals(h: nat)
    ensures
        render_hundredths(h).len() >= 4,
        render_hundredths(h)[render_hundredths(h).len() - 3] == '.',
        is_digit_char(render_hundredths(h)[render_hundredths(h).len() - 2]),
        is_digit_char(render_hundredths(h)[render_hundredths(h).len() - 1]),
        forall|i: int|
            0 <= i < render_hundredths(h).len() && i != render_hundredths(h).len() - 3
                ==> render_hundredths(h)[i] != '.',
{
    let a = dec_digits(h / 100);
    let d1 = digit_char((h % 100) / 10);
    let d2 = digit_char(h % 10);
    let s = render_hundredths(h);
    lemma_dec_digits(h / 100);
    lemma_digit_char_val((h % 100) / 10);
    lemma_digit_char_val(h % 10);
    assert(s.len() == a.len() + 3);
    assert(s[s.len() - 3] == '.');
    assert(s[s.len() - 2] == d1);
    assert(s[s.len() - 1] == d2);
    assert forall|i: int| 0 <= i < s.len() && i != s.len() - 3 implies s[i] != '.' by {
        if i < a.len() {
            assert(s[i] == a[i]);
            lemma_digit_char_plain(a[i]);
        } else if i == s.len() - 2 {
            lemma_digit_char_plain(d1);
        } else {
            lemma_digit_char_plain(d2);
        }
    }
}

impl ToMRC for PositiveFloat {
    fn to_mrc(&self) -> String {
        self.to_crm()
    }
}

/// Does `s` hold a digit other than `'0'`?
pub open spec fn has_nonzero_digit(s: Seq<char>) -> bool {
    exists|i: int| 0 <= i < s.len() && digit_val(#[trigger] s[i]) != 0
}

/// Does the fractional digit string `f`, cut after two digits, round its
/// third digit up?  Ties round to an even count of hundredths.
pub open spec fn frac_rounds_up(f: Seq<char>, base: nat) -> bool {
    if f.len() <= 2 {
        false
    } else if digit_val(f[2]) > 5 {
        true
    } else if digit_val(f[2]) < 5 {
        false
    } else if has_nonzero_digit(f.skip(3)) {
        true
    } else {
        base % 2 == 1
    }
}

/// The hundredths denoted by the fractional digit string `f`, rounded
/// half-to-even to two digits.
pub open spec fn frac_hundredths(f: Seq<char>) -> nat {
    let base = (if f.len() >= 1 {
        digit_val(f[0]) * 10
    } else {
        0
    }) + (if f.len() >= 2 {
        digit_val(f[1])
    } else {
        0
    });
    base + (if frac_rounds_up(f, base) {
        1nat
    } else {
        0nat
    })
}

/// Is `s` an unsigned decimal numeral: digits with at most one dot and at
/// least one digit?
pub open spec fn unsigned_ok(s: Seq<char>) -> bool {
    match find_char(s, '.') {
        None => s.len() > 0 && all_digits(s),
        Some(i) => s.len() >= 2 && all_digits(s.take(i)) && all_digits(s.skip(i + 1)),
    }
}

/// The hundredths denoted by the unsigned decimal numeral `s`.
pub open spec fn unsigned_val(s: Seq<char>) -> nat {
    match find_char(s, '.') {
        None => digits_val(s) * 100,
        Some(i) => digits_val(s.take(i)) * 100 + frac_hundredths(s.skip(i + 1)),
    }
}

/// The signed count of hundredths denoted by `s`, or `None` where `s` is not
/// a plain decimal numeral with an optional sign.
pub open spec fn parse_decimal(s: Seq<char>) -> Option<int> {
    if s.len() > 0 && (s[0] == '-' || s[0] == '+') {
        if unsigned_ok(s.skip(1)) {
            if s[0] == '-' {
                Some(-(unsigned_val(s.skip(1)) as int))
            } else {
                Some(unsigned_val(s.skip(1)) as int)
            }
        } else {
            None
        }
    } else {
        if unsigned_ok(s) {
            Some(unsigned_val(s) as int)
        } else {
            None
        }
    }
}

/// What parsing a piece of text can come to.
#[derive(Debug, Clone, PartialEq)]
pub(crate) enum ParseOutcome {
    /// The text is not a decimal numeral.
    BadSyntax,
    /// A numeral whose magnitude exceeds what a `PositiveFloat` can hold.
    TooBig,
    /// The denoted count of hundredths.
    Val(i64),
}

/// Digit test as executable code.
fn is_digit_exec(c: char) -> (b: bool)
    ensures
        b == is_digit_char(c),
{
    '0' <= c && c <= '9'
}

/// Numeric value of a digit character, as executable code.
fn digit_val_exec(c: char) -> (d: u64)
    requires
        is_digit_char(c),
    ensures
        d == digit_val(c),
        d < 10,
{
    (c as u32 - 48) as u64
}

/// Do the characters of `v` all denote digits?
pub(crate) fn check_all_digits(v: &Vec<char>) -> (b: bool)
    ensures
        b == all_digits(v@),
{
    let n = v.len();
    let mut i: usize = 0;
    while i < n
        invariant
            n == v@.len(),
            i <= n,
            forall|j: int| 0 <= j < i ==> is_digit_char(#[trigger] v@[j]),
        decreases n - i,
    {
        if !is_digit_exec(v[i]) {
            return false;
        }
        i = i + 1;
    }
    true
}

/// The value of the digit string `v`, unless it exceeds `cap`.
pub(crate) fn digits_value_capped(v: &Vec<char>, cap: u64) -> (r: Option<u64>)
    requires
        all_digits(v@),
        cap <= 0x1000_0000_0000_0000,
    ensures
        match r {
            Some(x) => x == digits_val(v@) && x <= cap,
            None => digits_val(v@) > cap,
        },
{
    let n = v.len();
    let mut i: usize = 0;
    let mut acc: u64 = 0;
    let mut big: bool = false;
    proof {
        assert(v@.take(0) =~= Seq::<char>::empty());
    }
    while i < n
        invariant
            n == v@.len(),
            i <= n,
            all_digits(v@),
            cap <= 0x1000_0000_0000_0000,
            big == (digits_val(v@.take(i as int)) > cap),
            !big ==> acc == digits_val(v@.take(i as int)) && acc <= cap,
        decreases n - i,
    {
        let d = digit_val_exec(v[i]);
        proof {
            assert(v@.take(i + 1).drop_last() =~= v@.take(i as int));
            assert(v@.take(i + 1).last() == v@[i as int]);
            assert(digits_val(v@.take(i + 1)) == digits_val(v@.take(i as int)) * 10 + digit_val(
                v@[i as int],
            ));
        }
        if big {
            proof {
                assert(digits_val(v@.take(i as int)) * 10 >= digits_val(v@.take(i as int)));
            }
        } else {
            let next = acc * 10 + d;
            if next > cap {
                big = true;
            } else {
                acc = next;
            }
        }
        i = i + 1;
    }
    proof {
        assert(v@.take(n as int) =~= v@);
    }
    if big {
        None
    } else {
        Some(acc)
    }
}

/// The rounded hundredths of the fractional digit string `v`.
fn frac_hundredths_exec(v: &Vec<char>) -> (r: u64)
    requires
        all_digits(v@),
    ensures
        r == frac_hundredths(v@),
        r <= 100,
{
    let n = v.len();
    let mut base: u64 = 0;
    if n >= 1 {
        base = digit_val_exec(v[0]) * 10;
    }
    if n >= 2 {
        base = base + digit_val_exec(v[1]);
    }
    let round_up: bool = if n <= 2 {
        false
    } else {
        let d2 = digit_val_exec(v[2]);
        if d2 > 5 {
            true
        } else if d2 < 5 {
            false
        } else {
            let mut i: usize = 3;
            let mut found: bool = false;
            while i < n && !found
                invariant
                    3 <= i <= n,
                    n == v@.len(),
                    all_digits(v@),
                    found ==> has_nonzero_digit(v@.skip(3)),
                    !found ==> forall|j: int| 3 <= j < i ==> digit_val(#[trigger] v@[j]) == 0,
                decreases n - i,
            {
                if digit_val_exec(v[i]) != 0 {
                    proof {
                        assert(v@.skip(3)[i - 3] == v@[i as int]);
                    }
                    found = true;
                }
                i = i + 1;
            }
            proof {
                if !found {
                    assert(forall|j: int|
                        0 <= j < v@.skip(3).len() ==> digit_val(#[trigger] v@.skip(3)[j]) == 0);
                    assert(!has_nonzero_digit(v@.skip(3)));
                }
            }
            if found {
                true
            } else {
                base % 2 == 1
            }
        }
    };
    if round_up {
        base + 1
    } else {
        base
    }
}

/// The outcome of reading the characters of `v` as a signed decimal numeral
/// counted in hundredths.
pub(crate) fn parse_decimal_chars(v: &Vec<char>) -> (r: ParseOutcome)
    ensures
        match parse_decimal(v@) {
            None => r == ParseOutcome::BadSyntax,
            Some(x) => if -(MAX_HUNDREDTHS as int) <= x <= MAX_HUNDREDTHS as int {
                r == ParseOutcome::Val(x as i64)
            } else {
                r == ParseOutcome::TooBig
            },
        },
{
    parse_decimal_chars_capped(v, MAX_HUNDREDTHS)
}

/// The outcome of reading the characters of `v` as a signed decimal numeral
/// counted in hundredths, with magnitudes above `cap` reported as too big.
pub(crate) fn parse_decimal_chars_capped(v: &Vec<char>, cap: u64) -> (r: ParseOutcome)
    requires
        100 <= cap <= 0x38D7EA4C68000,
    ensures
        match parse_decimal(v@) {
            None => r == ParseOutcome::BadSyntax,
            Some(x) => if -(cap as int) <= x <= cap as int {
                r == ParseOutcome::Val(x as i64)
            } else {
                r == ParseOutcome::TooBig
            },
        },
{
    let n = v.len();
    let mut neg: bool = false;
    let body: Vec<char>;
    if n > 0 && (v[0] == '-' || v[0] == '+') {
        neg = v[0] == '-';
        body = subvec(v, 1, n);
        proof {
            assert(body@ =~= v@.skip(1));
        }
    } else {
        body = subvec(v, 0, n);
        proof {
            assert(body@ =~= v@);
        }
    }
    let m = body.len();
    let magnitude: u64 = match find_char_vec(&body, '.') {
        None => {
            if m == 0 || !check_all_digits(&body) {
                return ParseOutcome::BadSyntax;
            }
            match digits_value_capped(&body, cap / 100) {
                None => {
                    proof {
                        assert(digits_val(body@) * 100 > cap);
                    }
                    return ParseOutcome::TooBig;
                },
                Some(x) => x * 100,
            }
        },
        Some(i) => {
            proof {
                crate::text::lemma_find_char_props(body@, '.');
            }
            if m < 2 {
                return ParseOutcome::BadSyntax;
            }
            let int_part = subvec(&body, 0, i);
            let frac_part = subvec(&body, i + 1, m);
            proof {
                assert(int_part@ =~= body@.take(i as int));
                assert(frac_part@ =~= body@.skip(i + 1));
            }
            if !check_all_digits(&int_part) || !check_all_digits(&frac_part) {
                return ParseOutcome::BadSyntax;
            }
            let frac = frac_hundredths_exec(&frac_part);
            match digits_value_capped(&int_part, cap / 100) {
                None => {
                    proof {
                        assert(digits_val(int_part@) * 100 >= (cap / 100 + 1) * 100);
                    }
                    return ParseOutcome::TooBig;
                },
                Some(x) => {
                    let val = x * 100 + frac;
                    if val > cap {
                        return ParseOutcome::TooBig;
                    }
                    val
                },
            }
        },
    };
    if neg {
        if magnitude > 0 {
            ParseOutcome::Val(-(magnitude as i64))
        } else {
            ParseOutcome::Val(0)
        }
    } else {
        ParseOutcome::Val(magnitude as i64)
    }
}

/// Write any count of hundredths the way it appears in a course file; counts
/// of minutes may outgrow what a `PositiveFloat` holds.
pub fn render_u64_hundredths(h: u64) -> (r: String)
    ensures
        r@ == render_hundredths(h as nat),
{
    let mut chars: Vec<char> = Vec::new();
    push_dec_digits(h / 100, &mut chars);
    chars.push('.');
    chars.push(digit_to_char(h % 100 / 10));
    chars.push(digit_to_char(h % 10));
    proof {
        assert(chars@ =~= render_hundredths(h as nat));
    }
    chars_to_string(&chars)
}

/// Write a plain integer in decimal, without a fractional part.
pub fn render_u64_int(n: u64) -> (r: String)
    ensures
        r@ == dec_digits(n as nat),
{
    let mut chars: Vec<char> = Vec::new();
    push_dec_digits(n, &mut chars);
    proof {
        assert(chars@ =~= dec_digits(n as nat));
    }
    chars_to_string(&chars)
}

/// The digit character for `d < 10`, as executable code.
fn digit_to_char(d: u64) -> (c: char)
    requires
        d < 10,
    ensures
        c == digit_char(d as nat),
{
    let c = (48 + d as u8) as char;
    proof {
        assert(c == digit_char(d as nat));
    }
    c
}

/// Append the decimal digits of `n` to `out`.
fn push_dec_digits(n: u64, out: &mut Vec<char>)
    ensures
        final(out)@ == old(out)@ + dec_digits(n as nat),
    decreases n,
{
    if n < 10 {
        out.push(digit_to_char(n));
        proof {
            assert(out@ =~= old(out)@ + dec_digits(n as nat));
        }
    } else {
        push_dec_digits(n / 10, out);
        out.push(digit_to_char(n % 10));
        proof {
            assert(out@ =~= old(out)@ + dec_digits(n as nat));
        }
    }
}

} // verus!
