//! Text helpers: decimal numbers, searching and splitting.
//!
//! A string is modelled by its sequence of characters.

use vstd::arithmetic::power::pow;
use vstd::prelude::*;
use vstd::utf8::*;

verus! {

/// Why a text is not a 32-bit decimal number.
#[derive(Clone, Copy, Debug, PartialEq, Eq, Structural)]
pub enum ParseIntError {
    /// The text is empty.
    Empty,
    /// A character is no decimal digit, or a sign stands alone.
    InvalidDigit,
    /// The number is above the greatest 32-bit number.
    PosOverflow,
    /// The number is below the least 32-bit number.
    NegOverflow,
}

/// The decimal digit that stands for `d`.
pub open spec fn digit_char(d: nat) -> char {
    (('0' as u32) + d) as char
}

/// The decimal digits of `n`, without leading zeros.
pub open spec fn decimal(n: nat) -> Seq<char>
    decreases n,
{
    if n < 10 {
        seq![digit_char(n)]
    } else {
        decimal(n / 10).push(digit_char(n % 10))
    }
}

pub open spec fn is_digit(c: char) -> bool {
    '0' <= c && c <= '9'
}

pub open spec fn digit_value(c: char) -> int {
    c as int - '0' as int
}

/// Whether `s` is made of decimal digits alone.
pub open spec fn all_digits(s: Seq<char>) -> bool {
    forall|i: int| 0 <= i < s.len() ==> is_digit(#[trigger] s[i])
}

/// The number that a sequence of decimal digits denotes.
pub open spec fn digits_value(s: Seq<char>) -> nat
    decreases s.len(),
{
    if s.len() == 0 {
        0
    } else {
        digits_value(s.drop_last()) * 10 + digit_value(s.last()) as nat
    }
}

/// `s` without one leading `+`.
pub open spec fn without_plus(s: Seq<char>) -> Seq<char> {
    if s.len() > 0 && s[0] == '+' {
        s.skip(1)
    } else {
        s
    }
}

/// The unsigned number that `s` denotes: one or more decimal digits, which a single `+` may
/// precede, whose value fits in a `usize`.
pub open spec fn unsigned_value(s: Seq<char>) -> Option<usize> {
    let digits = without_plus(s);
    if digits.len() > 0 && all_digits(digits) && digits_value(digits) <= usize::MAX {
        Some(digits_value(digits) as usize)
    } else {
        None
    }
}

/// Reads the digits of `s` from position `i` on, where `acc` is the value of those before.
pub open spec fn signed_digits(s: Seq<char>, i: int, negative: bool, acc: int) -> Result<
    i32,
    ParseIntError,
>
    decreases s.len() - i,
{
    if i >= s.len() {
        Ok(acc as i32)
    } else if !is_digit(s[i]) {
        Err(ParseIntError::InvalidDigit)
    } else {
        let d = digit_value(s[i]);
        let next = if negative {
            acc * 10 - d
        } else {
            acc * 10 + d
        };
        if next > i32::MAX {
            Err(ParseIntError::PosOverflow)
        } else if next < i32::MIN {
            Err(ParseIntError::NegOverflow)
        } else {
            signed_digits(s, i + 1, negative, next)
        }
    }
}

/// The 32-bit number that `s` denotes: decimal digits, which a single sign may precede.
/// The error is that of the first character at which reading fails.
pub open spec fn signed_value(s: Seq<char>) -> Result<i32, ParseIntError> {
    if s.len() == 0 {
        Err(ParseIntError::Empty)
    } else if s[0] == '+' || s[0] == '-' {
        if s.len() == 1 {
            Err(ParseIntError::InvalidDigit)
        } else {
            signed_digits(s, 1, s[0] == '-', 0)
        }
    } else {
        signed_digits(s, 0, false, 0)
    }
}

/// The position of the first `c` in `s` at or after `from`, or the length of `s`.
pub open spec fn find_char(s: Seq<char>, c: char, from: int) -> int
    decreases s.len() - from,
{
    if from >= s.len() {
        s.len() as int
    } else if s[from] == c {
        from
    } else {
        find_char(s, c, from + 1)
    }
}

/// The position of the first character other than `c` in `s` at or after `from`, or the
/// length of `s`.
pub open spec fn skip_char(s: Seq<char>, c: char, from: int) -> int
    decreases s.len() - from,
{
    if from >= s.len() {
        s.len() as int
    } else if s[from] != c {
        from
    } else {
        skip_char(s, c, from + 1)
    }
}

/// The pieces between the occurrences of `sep` in `s`, from position `from` on.
pub open spec fn split_from(s: Seq<char>, sep: char, from: int) -> Seq<Seq<char>>
    decreases s.len() - from + 1,
    when 0 <= from <= s.len()
    via split_from_decreases
{
    let end = find_char(s, sep, from);
    if end >= s.len() {
        seq![s.subrange(from, s.len() as int)]
    } else {
        seq![s.subrange(from, end)] + split_from(s, sep, end + 1)
    }
}

#[via_fn]
proof fn split_from_decreases(s: Seq<char>, sep: char, from: int) {
    lemma_find_char(s, sep, from);
}

/// The pieces between the occurrences of `sep` in `s`: always one more than there are
/// occurrences.
pub open spec fn split(s: Seq<char>, sep: char) -> Seq<Seq<char>> {
    split_from(s, sep, 0)
}

/// Whether `part` stands in `s` at position `i`.
pub open spec fn stands_at(s: Seq<char>, part: Seq<char>, i: int) -> bool {
    &&& 0 <= i
    &&& i + part.len() <= s.len()
    &&& s.subrange(i, i + part.len()) == part
}

/// Whether `part` stands anywhere in `s`.
pub open spec fn has_part(s: Seq<char>, part: Seq<char>) -> bool {
    exists|i: int| stands_at(s, part, i)
}

pub proof fn lemma_find_char(s: Seq<char>, c: char, from: int)
    requires
        0 <= from <= s.len(),
    ensures
        from <= find_char(s, c, from) <= s.len(),
        find_char(s, c, from) < s.len() ==> s[find_char(s, c, from)] == c,
        forall|i: int| from <= i < find_char(s, c, from) ==> s[i] != c,
    decreases s.len() - from,
{
    if from < s.len() && s[from] != c {
        lemma_find_char(s, c, from + 1);
    }
}

/// The first `c` is where the text says it is.
pub proof fn lemma_find_char_unique(s: Seq<char>, c: char, from: int, at: int)
    requires
        0 <= from <= at <= s.len(),
        at < s.len() ==> s[at] == c,
        forall|i: int| from <= i < at ==> s[i] != c,
    ensures
        find_char(s, c, from) == at,
    decreases at - from,
{
    if from < at {
        lemma_find_char_unique(s, c, from + 1, at);
    }
}

proof fn lemma_find_char_shift(a: Seq<char>, b: Seq<char>, c: char, i: int)
    requires
        0 <= i <= b.len(),
    ensures
        find_char(a + b, c, a.len() + i) == a.len() + find_char(b, c, i),
{
    lemma_find_char(b, c, i);
    let at = find_char(b, c, i);
    assert forall|k: int| a.len() + i <= k < a.len() + at implies (a + b)[k] != c by {
        assert((a + b)[k] == b[k - a.len()]);
    }
    lemma_find_char_unique(a + b, c, a.len() + i, a.len() + at);
}

proof fn lemma_split_shift(a: Seq<char>, b: Seq<char>, sep: char, i: int)
    requires
        0 <= i <= b.len(),
    ensures
        split_from(a + b, sep, a.len() + i) == split_from(b, sep, i),
    decreases b.len() - i,
{
    lemma_find_char_shift(a, b, sep, i);
    lemma_find_char(b, sep, i);
    let end = find_char(b, sep, i);
    if end < b.len() {
        lemma_split_shift(a, b, sep, end + 1);
        assert((a + b).subrange(a.len() + i, a.len() + end) =~= b.subrange(i, end));
    } else {
        assert((a + b).subrange(a.len() + i, (a + b).len() as int) =~= b.subrange(
            i,
            b.len() as int,
        ));
    }
}

/// A text that begins with a piece and a separator is split into that piece and the pieces of
/// what follows.
pub proof fn lemma_split_at(a: Seq<char>, sep: char, rest: Seq<char>)
    requires
        !a.contains(sep),
    ensures
        split(a + seq![sep] + rest, sep) == seq![a] + split(rest, sep),
{
    let head = a + seq![sep];
    let all = head + rest;
    assert forall|k: int| 0 <= k < a.len() implies all[k] != sep by {
        assert(all[k] == a[k]);
    }
    assert(all[a.len() as int] == sep);
    lemma_find_char_unique(all, sep, 0, a.len() as int);
    lemma_split_shift(head, rest, sep, 0);
    assert(all.subrange(0, a.len() as int) =~= a);
}

/// A text without a separator is one piece.
pub proof fn lemma_split_last(a: Seq<char>, sep: char)
    requires
        !a.contains(sep),
    ensures
        split(a, sep) == seq![a],
{
    lemma_find_char_unique(a, sep, 0, a.len() as int);
    assert(a.subrange(0, a.len() as int) =~= a);
}

pub proof fn lemma_skip_char(s: Seq<char>, c: char, from: int)
    requires
        0 <= from <= s.len(),
    ensures
        from <= skip_char(s, c, from) <= s.len(),
        skip_char(s, c, from) < s.len() ==> s[skip_char(s, c, from)] != c,
        forall|i: int| from <= i < skip_char(s, c, from) ==> s[i] == c,
    decreases s.len() - from,
{
    if from < s.len() && s[from] == c {
        lemma_skip_char(s, c, from + 1);
    }
}

/// A decimal number has at least one character and digits alone.
pub proof fn lemma_decimal_digits(n: nat)
    ensures
        decimal(n).len() >= 1,
        all_digits(decimal(n)),
        digits_value(decimal(n)) == n,
    decreases n,
{
    if n < 10 {
        assert(decimal(n).drop_last() =~= Seq::<char>::empty());
        assert(digits_value(decimal(n).drop_last()) == 0);
    } else {
        lemma_decimal_digits(n / 10);
        assert(decimal(n).drop_last() =~= decimal(n / 10));
    }
}

/// A number is read back from its decimal digits.
pub proof fn decimal_round_trip(n: usize)
    ensures
        unsigned_value(decimal(n as nat)) == Some(n),
{
    lemma_decimal_digits(n as nat);
    assert(is_digit(decimal(n as nat)[0]));
}

/// Two numbers with the same decimal digits are the same number.
pub proof fn decimal_injective(m: nat, n: nat)
    requires
        decimal(m) == decimal(n),
    ensures
        m == n,
{
    lemma_decimal_digits(m);
    lemma_decimal_digits(n);
}

fn digit_str(d: usize) -> (s: &'static str)
    requires
        d < 10,
    ensures
        s@ == seq![digit_char(d as nat)],
{
    proof {
        reveal_strlit("0");
        reveal_strlit("1");
        reveal_strlit("2");
        reveal_strlit("3");
        reveal_strlit("4");
        reveal_strlit("5");
        reveal_strlit("6");
        reveal_strlit("7");
        reveal_strlit("8");
        reveal_strlit("9");
    }
    match d {
        0 => "0",
        1 => "1",
        2 => "2",
        3 => "3",
        4 => "4",
        5 => "5",
        6 => "6",
        7 => "7",
        8 => "8",
        _ => "9",
    }
}

/// Writes `n` in decimal.
pub fn to_decimal(n: usize) -> (s: String)
    ensures
        s@ == decimal(n as nat),
    decreases n,
{
    if n < 10 {
        digit_str(n).to_owned()
    } else {
        let mut s = to_decimal(n / 10);
        s.append(digit_str(n % 10));
        proof {
            assert(s@ =~= decimal(n as nat));
        }
        s
    }
}

/// The characters of `s`.
pub fn chars_of(s: &str) -> (v: Vec<char>)
    ensures
        v@ == s@,
{
    let mut v: Vec<char> = Vec::new();
    for c in it: s.chars()
        invariant
            v@ == it.seq().take(it.index() as int),
            it.seq() == s@,
    {
        v.push(c);
    }
    assert(s@.take(s@.len() as int) =~= s@);
    v
}

/// Whether two texts are the same.
pub fn same_text(a: &str, b: &str) -> (r: bool)
    ensures
        r == (a@ == b@),
{
    broadcast use encode_utf8_decode_utf8;

    let x = a.as_bytes();
    let y = b.as_bytes();
    if x.len() != y.len() {
        return false;
    }
    let mut i: usize = 0;
    while i < x.len()
        invariant
            i <= x@.len(),
            x@.len() == y@.len(),
            x@ == encode_utf8(a@),
            y@ == encode_utf8(b@),
            forall|j: int| 0 <= j < i ==> x@[j] == y@[j],
        decreases x@.len() - i,
    {
        if x[i] != y[i] {
            return false;
        }
        i += 1;
    }
    assert(x@ =~= y@);
    assert(decode_utf8(encode_utf8(a@)) == a@);
    assert(decode_utf8(encode_utf8(b@)) == b@);
    true
}

/// The position of the first `c` at or after `from`.
pub fn index_of(s: &Vec<char>, c: char, from: usize) -> (r: usize)
    requires
        from <= s@.len(),
    ensures
        r == find_char(s@, c, from as int),
        from <= r <= s@.len(),
{
    let mut i = from;
    while i < s.len() && s[i] != c
        invariant
            from <= i <= s@.len(),
            find_char(s@, c, from as int) == find_char(s@, c, i as int),
        decreases s@.len() - i,
    {
        i += 1;
    }
    i
}

/// The position of the first character other than `c` at or after `from`.
pub fn index_past(s: &Vec<char>, c: char, from: usize) -> (r: usize)
    requires
        from <= s@.len(),
    ensures
        r == skip_char(s@, c, from as int),
        from <= r <= s@.len(),
{
    let mut i = from;
    while i < s.len() && s[i] == c
        invariant
            from <= i <= s@.len(),
            skip_char(s@, c, from as int) == skip_char(s@, c, i as int),
        decreases s@.len() - i,
    {
        i += 1;
    }
    i
}

/// The texts that `v` refers to.
pub open spec fn texts(v: Seq<&str>) -> Seq<Seq<char>> {
    Seq::new(v.len(), |i: int| v[i]@)
}

/// The texts that `v` holds.
pub open spec fn strings(v: Seq<String>) -> Seq<Seq<char>> {
    Seq::new(v.len(), |i: int| v[i]@)
}

/// `std::str::from_utf8`: the text that bytes encode, where they are valid UTF-8.
#[verifier::external_body]
pub(crate) fn utf8_text(bytes: &[u8]) -> (r: Option<&str>)
    ensures
        match r {
            Some(s) => valid_utf8(bytes@) && s@ == decode_utf8(bytes@),
            None => !valid_utf8(bytes@),
        },
{
    std::str::from_utf8(bytes).ok()
}

/// Splits `s` at each `sep`.
pub fn split_text<'a>(s: &'a str, sep: char) -> (r: Vec<&'a str>)
    ensures
        texts(r@) == split(s@, sep),
{
    let chars = chars_of(s);
    let mut pieces: Vec<&'a str> = Vec::new();
    let mut from: usize = 0;
    loop
        invariant
            chars@ == s@,
            from <= chars@.len(),
            split(s@, sep) == texts(pieces@) + split_from(s@, sep, from as int),
        decreases chars@.len() - from,
    {
        let end = index_of(&chars, sep, from);
        let ghost before = pieces@;
        pieces.push(s.substring_char(from, end));
        assert(texts(pieces@) =~= texts(before).push(s@.subrange(from as int, end as int)));
        if end >= chars.len() {
            assert(texts(pieces@) =~= split(s@, sep));
            return pieces;
        }
        proof {
            assert(texts(before) + (seq![s@.subrange(from as int, end as int)] + split_from(
                s@,
                sep,
                end + 1,
            )) =~= texts(pieces@) + split_from(s@, sep, end + 1));
        }
        from = end + 1;
    }
}

/// Whether `part` stands in `s` at position `at`.
fn part_at(s: &Vec<char>, part: &Vec<char>, at: usize) -> (r: bool)
    requires
        at <= s@.len(),
    ensures
        r == stands_at(s@, part@, at as int),
{
    let len = s.len();
    if part.len() > len - at {
        return false;
    }
    let mut i: usize = 0;
    while i < part.len()
        invariant
            i <= part@.len(),
            len == s@.len(),
            at + part@.len() <= len,
            forall|j: int| 0 <= j < i ==> s@[at + j] == part@[j],
        decreases part@.len() - i,
    {
        if s[at + i] != part[i] {
            assert(s@.subrange(at as int, at + part@.len())[i as int] != part@[i as int]);
            return false;
        }
        i += 1;
    }
    assert(s@.subrange(at as int, at + part@.len()) =~= part@);
    true
}

/// Whether `s` begins with `prefix`.
pub fn begins_with(s: &Vec<char>, prefix: &str) -> (r: bool)
    ensures
        r == stands_at(s@, prefix@, 0),
{
    part_at(s, &chars_of(prefix), 0)
}

/// Whether `part` stands anywhere in `s`.
pub fn contains_text(s: &str, part: &str) -> (r: bool)
    ensures
        r == has_part(s@, part@),
{
    let text = chars_of(s);
    let sought = chars_of(part);
    let mut i: usize = 0;
    loop
        invariant
            text@ == s@,
            sought@ == part@,
            i <= text@.len(),
            forall|j: int| 0 <= j < i ==> !stands_at(s@, part@, j),
        decreases text@.len() - i,
    {
        if part_at(&text, &sought, i) {
            assert(stands_at(s@, part@, i as int));
            return true;
        }
        if i >= text.len() {
            assert(forall|j: int| !stands_at(s@, part@, j));
            return false;
        }
        i += 1;
    }
}

/// Reads an unsigned decimal number.
pub fn parse_unsigned(s: &str) -> (r: Option<usize>)
    ensures
        r == unsigned_value(s@),
{
    let chars = chars_of(s);
    let start: usize = if chars.len() > 0 && chars[0] == '+' {
        1
    } else {
        0
    };
    let ghost digits = without_plus(s@);
    assert(digits =~= chars@.skip(start as int));
    if chars.len() == start {
        return None;
    }
    let mut value: usize = 0;
    let mut i = start;
    assert(digits.take(0) =~= Seq::<char>::empty());
    while i < chars.len()
        invariant
            chars@ == s@,
            start <= i <= chars@.len(),
            digits == without_plus(s@),
            digits == chars@.skip(start as int),
            all_digits(digits.take(i - start)),
            value == digits_value(digits.take(i - start)),
        decreases chars@.len() - i,
    {
        let c = chars[i];
        let ghost k = i - start;
        assert(digits[k] == c);
        if !('0' <= c && c <= '9') {
            return None;
        }
        proof {
            assert(digits.take(k + 1).drop_last() =~= digits.take(k));
            assert forall|j: int| 0 <= j < k + 1 implies is_digit(
                #[trigger] digits.take(k + 1)[j],
            ) by {
                if j < k {
                    assert(is_digit(digits.take(k)[j]));
                }
            }
            lemma_digits_value_grows(digits, k + 1);
        }
        let d = c as usize - '0' as usize;
        if value > (usize::MAX - d) / 10 {
            assert(value * 10 + d > usize::MAX);
            return None;
        }
        value = value * 10 + d;
        i += 1;
    }
    assert(digits.take(digits.len() as int) =~= digits);
    Some(value)
}

proof fn lemma_digits_value_grows(s: Seq<char>, k: int)
    requires
        0 <= k <= s.len(),
    ensures
        all_digits(s) ==> digits_value(s.take(k)) <= digits_value(s),
    decreases s.len() - k,
{
    if k < s.len() {
        lemma_digits_value_grows(s, k + 1);
        assert(s.take(k + 1).drop_last() =~= s.take(k));
    } else {
        assert(s.take(k) =~= s);
    }
}

/// Reads a signed 32-bit decimal number.
pub fn parse_signed(s: &str) -> (r: Result<i32, ParseIntError>)
    ensures
        r == signed_value(s@),
{
    let chars = chars_of(s);
    if chars.len() == 0 {
        return Err(ParseIntError::Empty);
    }
    let signed = chars[0] == '+' || chars[0] == '-';
    let negative = chars[0] == '-';
    if signed && chars.len() == 1 {
        return Err(ParseIntError::InvalidDigit);
    }
    let mut i: usize = if signed {
        1
    } else {
        0
    };
    let mut value: i32 = 0;
    while i < chars.len()
        invariant
            chars@ == s@,
            0 <= i <= chars@.len(),
            signed_value(s@) == signed_digits(s@, i as int, negative, value as int),
        decreases chars@.len() - i,
    {
        let c = chars[i];
        if !('0' <= c && c <= '9') {
            return Err(ParseIntError::InvalidDigit);
        }
        let d = (c as u32 - '0' as u32) as i64;
        let next: i64 = if negative {
            value as i64 * 10 - d
        } else {
            value as i64 * 10 + d
        };
        if next > i32::MAX as i64 {
            return Err(ParseIntError::PosOverflow);
        }
        if next < i32::MIN as i64 {
            return Err(ParseIntError::NegOverflow);
        }
        value = next as i32;
        i += 1;
    }
    Ok(value)
}

/// A digit denotes its own value, and of two runs of digits behind each other the first counts as
/// many times ten as the second is long.
pub proof fn digits_count_by_their_place(a: Seq<char>, b: Seq<char>, d: nat)
    requires
        all_digits(b),
        d < 10,
    ensures
        digits_value(seq![digit_char(d)]) == d,
        digits_value(a + b) == digits_value(a) * pow(10, b.len()) + digits_value(b),
    decreases b.len(),
{
    reveal_with_fuel(digits_value, 2);
    assert(seq![digit_char(d)].drop_last() =~= Seq::<char>::empty());
    assert(seq![digit_char(d)].last() == digit_char(d));
    reveal(pow);
    if b.len() == 0 {
        assert(a + b =~= a);
    } else {
        let rest = b.drop_last();
        assert(all_digits(rest)) by {
            assert forall|i: int| 0 <= i < rest.len() implies is_digit(#[trigger] rest[i]) by {
                assert(is_digit(b[i]));
            }
        }
        digits_count_by_their_place(a, rest, d);
        assert((a + b).drop_last() =~= a + rest);
        assert((a + b).last() == b.last());
        assert(is_digit(b[b.len() - 1]));
        let (x, p, y) = (digits_value(a) as int, pow(10, rest.len()), digits_value(rest) as int);
        assert((x * p + y) * 10 == x * (10 * p) + y * 10) by (nonlinear_arith);
    }
}

/// A text is an unsigned number exactly where it is made of digits, behind a plus sign or not,
/// whose value is not too great. Then it is that value.
pub proof fn unsigned_number_is_read(digits: Seq<char>)
    requires
        digits.len() > 0,
        all_digits(digits),
    ensures
        digits_value(digits) <= usize::MAX ==> {
            &&& unsigned_value(digits) == Some(digits_value(digits) as usize)
            &&& unsigned_value(seq!['+'] + digits) == Some(digits_value(digits) as usize)
        },
        digits_value(digits) > usize::MAX ==> {
            &&& unsigned_value(digits) is None
            &&& unsigned_value(seq!['+'] + digits) is None
        },
{
    assert(is_digit(digits[0]));
    assert((seq!['+'] + digits).skip(1) =~= digits);
}

/// What is read as an unsigned number is made of digits, behind a plus sign or not.
pub proof fn only_digits_are_a_number(s: Seq<char>)
    requires
        unsigned_value(s) is Some,
    ensures
        s.len() > 0,
        all_digits(s) || s.len() > 1 && s[0] == '+' && all_digits(s.skip(1)),
{
}

proof fn lemma_signed_digits(s: Seq<char>, start: int, i: int, negative: bool, acc: int)
    requires
        0 <= start <= i <= s.len(),
        all_digits(s.skip(start)),
        acc == if negative {
            -(digits_value(s.subrange(start, i)) as int)
        } else {
            digits_value(s.subrange(start, i)) as int
        },
        i32::MIN <= acc <= i32::MAX,
    ensures
        ({
            let v = digits_value(s.skip(start)) as int;
            signed_digits(s, i, negative, acc) == if negative {
                if -v >= i32::MIN {
                    Ok::<i32, ParseIntError>((-v) as i32)
                } else {
                    Err::<i32, ParseIntError>(ParseIntError::NegOverflow)
                }
            } else {
                if v <= i32::MAX {
                    Ok::<i32, ParseIntError>(v as i32)
                } else {
                    Err::<i32, ParseIntError>(ParseIntError::PosOverflow)
                }
            }
        }),
    decreases s.len() - i,
{
    let all = s.skip(start);
    if i == s.len() {
        assert(s.subrange(start, i) =~= all);
    } else {
        assert(is_digit(all[i - start]));
        let next = s.subrange(start, i + 1);
        assert(next.drop_last() =~= s.subrange(start, i));
        assert(next =~= all.take(i + 1 - start));
        lemma_digits_value_grows(all, i + 1 - start);
        let d = digit_value(s[i]);
        let value = digits_value(next) as int;
        assert(value == digits_value(s.subrange(start, i)) * 10 + d);
        if i32::MIN <= -value && negative || value <= i32::MAX && !negative {
            lemma_signed_digits(
                s,
                start,
                i + 1,
                negative,
                if negative {
                    -value
                } else {
                    value
                },
            );
        }
    }
}

/// A text of digits is the number that they denote, behind a minus sign the one below zero, as
/// long as it has no more than 32 bits. Where it has, it is told on which side.
pub proof fn signed_number_is_read(digits: Seq<char>)
    requires
        digits.len() > 0,
        all_digits(digits),
    ensures
        ({
            let v = digits_value(digits) as int;
            let positive = if v <= i32::MAX {
                Ok::<i32, ParseIntError>(v as i32)
            } else {
                Err::<i32, ParseIntError>(ParseIntError::PosOverflow)
            };
            &&& signed_value(digits) == positive
            &&& signed_value(seq!['+'] + digits) == positive
            &&& signed_value(seq!['-'] + digits) == if -v >= i32::MIN {
                Ok::<i32, ParseIntError>((-v) as i32)
            } else {
                Err::<i32, ParseIntError>(ParseIntError::NegOverflow)
            }
        }),
{
    assert(is_digit(digits[0]));
    assert(digits.skip(0) =~= digits);
    assert(digits.subrange(0, 0) =~= Seq::<char>::empty());
    lemma_signed_digits(digits, 0, 0, false, 0);
    let plus = seq!['+'] + digits;
    assert(plus.skip(1) =~= digits);
    assert(plus.subrange(1, 1) =~= Seq::<char>::empty());
    lemma_signed_digits(plus, 1, 1, false, 0);
    let minus = seq!['-'] + digits;
    assert(minus.skip(1) =~= digits);
    assert(minus.subrange(1, 1) =~= Seq::<char>::empty());
    lemma_signed_digits(minus, 1, 1, true, 0);
}

proof fn lemma_signed_digits_alone(s: Seq<char>, i: int, negative: bool, acc: int)
    requires
        0 <= i <= s.len(),
        signed_digits(s, i, negative, acc) is Ok,
    ensures
        forall|k: int| i <= k < s.len() ==> is_digit(#[trigger] s[k]),
    decreases s.len() - i,
{
    if i < s.len() {
        let d = digit_value(s[i]);
        lemma_signed_digits_alone(
            s,
            i + 1,
            negative,
            if negative {
                acc * 10 - d
            } else {
                acc * 10 + d
            },
        );
    }
}

/// What is read as a number is made of digits, behind a sign or not. A text without a character
/// is told apart from one with others.
pub proof fn only_digits_are_a_signed_number(s: Seq<char>)
    ensures
        signed_value(s) is Ok ==> s.len() > 0 && (all_digits(s) || s.len() > 1 && (s[0] == '+'
            || s[0] == '-') && all_digits(s.skip(1))),
        signed_value(s) == Err::<i32, ParseIntError>(ParseIntError::Empty) <==> s.len() == 0,
{
    if signed_value(s) is Ok {
        if s[0] == '+' || s[0] == '-' {
            lemma_signed_digits_alone(s, 1, s[0] == '-', 0);
        } else {
            lemma_signed_digits_alone(s, 0, false, 0);
        }
    }
    if s.len() > 0 {
        lemma_signed_error(s, if s[0] == '+' || s[0] == '-' { 1 } else { 0 }, s[0] == '-', 0);
    }
}

proof fn lemma_signed_error(s: Seq<char>, i: int, negative: bool, acc: int)
    requires
        0 <= i <= s.len(),
    ensures
        signed_digits(s, i, negative, acc) != Err::<i32, ParseIntError>(ParseIntError::Empty),
    decreases s.len() - i,
{
    if i < s.len() {
        let d = digit_value(s[i]);
        lemma_signed_error(
            s,
            i + 1,
            negative,
            if negative {
                acc * 10 - d
            } else {
                acc * 10 + d
            },
        );
    }
}

/// A text holds each of its parts, and where it holds one, that stands between what comes before
/// and behind it.
pub proof fn part_stands_between(a: Seq<char>, part: Seq<char>, b: Seq<char>, s: Seq<char>)
    ensures
        has_part(a + part + b, part),
        has_part(s, part) ==> exists|x: Seq<char>, y: Seq<char>| s == #[trigger] (x + part + y),
{
    let all = a + part + b;
    assert(all.subrange(a.len() as int, (a.len() + part.len()) as int) =~= part);
    assert(stands_at(all, part, a.len() as int));
    if has_part(s, part) {
        let i = choose|i: int| stands_at(s, part, i);
        let x = s.take(i);
        let y = s.skip(i + part.len() as int);
        assert(s =~= x + part + y);
    }
}

} // verus!
