//! Character-level text handling for command-line and config values: trimming, decimal
//! `u8` parsing, splitting on `..`, and case folding.

use vstd::prelude::*;

verus! {

/// The characters of `s`, in order.
pub fn chars_of(s: &str) -> (v: Vec<char>)
    ensures
        v@ == s@,
{
    broadcast use vstd::string::axiom_spec_iter;

    let mut v: Vec<char> = Vec::new();
    for c in it: s.chars()
        invariant
            v@ == it.seq().take(it.index() as int),
    {
        v.push(c);
    }
    v
}

/// Unicode `White_Space`, the property `char::is_whitespace` tests.
pub open spec fn is_space(c: char) -> bool {
    let u = c as u32;
    (0x09 <= u <= 0x0D) || u == 0x20 || u == 0x85 || u == 0xA0 || u == 0x1680 || (0x2000 <= u
        <= 0x200A) || u == 0x2028 || u == 0x2029 || u == 0x202F || u == 0x205F || u == 0x3000
}

/// `s` without its leading white space.
pub open spec fn trim_start(s: Seq<char>) -> Seq<char>
    decreases s.len(),
{
    if s.len() > 0 && is_space(s[0]) {
        trim_start(s.drop_first())
    } else {
        s
    }
}

/// `s` without its trailing white space.
pub open spec fn trim_end(s: Seq<char>) -> Seq<char>
    decreases s.len(),
{
    if s.len() > 0 && is_space(s.last()) {
        trim_end(s.drop_last())
    } else {
        s
    }
}

/// `s` without leading and trailing white space, as `str::trim` gives it.
pub open spec fn trimmed(s: Seq<char>) -> Seq<char> {
    trim_end(trim_start(s))
}

fn is_space_char(c: char) -> (r: bool)
    ensures
        r == is_space(c),
{
    let u = c as u32;
    (0x09 <= u && u <= 0x0D) || u == 0x20 || u == 0x85 || u == 0xA0 || u == 0x1680 || (0x2000
        <= u && u <= 0x200A) || u == 0x2028 || u == 0x2029 || u == 0x202F || u == 0x205F || u
        == 0x3000
}

proof fn lemma_trim_start_skip(s: Seq<char>, i: int)
    requires
        0 <= i <= s.len(),
        forall|k: int| 0 <= k < i ==> is_space(#[trigger] s[k]),
    ensures
        trim_start(s) == trim_start(s.subrange(i, s.len() as int)),
    decreases i,
{
    if i > 0 {
        assert(s.drop_first() =~= s.subrange(1, s.len() as int));
        lemma_trim_start_skip(s.drop_first(), i - 1);
        assert(s.drop_first().subrange(i - 1, s.drop_first().len() as int) =~= s.subrange(
            i,
            s.len() as int,
        ));
    } else {
        assert(s =~= s.subrange(0, s.len() as int));
    }
}

proof fn lemma_trim_end_skip(s: Seq<char>, j: int)
    requires
        0 <= j <= s.len(),
        forall|k: int| j <= k < s.len() ==> is_space(#[trigger] s[k]),
    ensures
        trim_end(s) == trim_end(s.subrange(0, j)),
    decreases s.len() - j,
{
    if j < s.len() {
        assert(s.drop_last() =~= s.subrange(0, s.len() - 1));
        lemma_trim_end_skip(s.drop_last(), j);
        assert(s.drop_last().subrange(0, j) =~= s.subrange(0, j));
    } else {
        assert(s =~= s.subrange(0, j));
    }
}

/// The characters of `s[lo..hi]` without leading and trailing white space.
pub fn trim_chars(s: &Vec<char>, lo: usize, hi: usize) -> (r: Vec<char>)
    requires
        lo <= hi <= s@.len(),
    ensures
        r@ == trimmed(s@.subrange(lo as int, hi as int)),
{
    let ghost t = s@.subrange(lo as int, hi as int);
    let mut a = lo;
    while a < hi && is_space_char(s[a])
        invariant
            lo <= a <= hi <= s@.len(),
            t == s@.subrange(lo as int, hi as int),
            forall|k: int| lo <= k < a ==> is_space(#[trigger] s@[k]),
        decreases hi - a,
    {
        a += 1;
    }
    proof {
        assert forall|k: int| 0 <= k < a - lo implies is_space(#[trigger] t[k]) by {
            assert(t[k] == s@[lo + k]);
        }
        lemma_trim_start_skip(t, a - lo);
        assert(t.subrange(a - lo, t.len() as int) =~= s@.subrange(a as int, hi as int));
        if a < hi {
            assert(!is_space(s@[a as int]));
            assert(trim_start(s@.subrange(a as int, hi as int)) == s@.subrange(a as int, hi as int));
        } else {
            assert(s@.subrange(a as int, hi as int) =~= Seq::<char>::empty());
        }
    }
    let ghost u = s@.subrange(a as int, hi as int);
    let mut b = hi;
    while b > a && is_space_char(s[b - 1])
        invariant
            a <= b <= hi <= s@.len(),
            u == s@.subrange(a as int, hi as int),
            forall|k: int| b <= k < hi ==> is_space(#[trigger] s@[k]),
        decreases b - a,
    {
        b -= 1;
    }
    proof {
        assert forall|k: int| b - a <= k < u.len() implies is_space(#[trigger] u[k]) by {
            assert(u[k] == s@[a + k]);
        }
        lemma_trim_end_skip(u, b - a);
        assert(u.subrange(0, b - a) =~= s@.subrange(a as int, b as int));
        let v = s@.subrange(a as int, b as int);
        if b > a {
            assert(!is_space(v.last()));
        } else {
            assert(v =~= Seq::<char>::empty());
        }
    }
    let mut r: Vec<char> = Vec::new();
    let mut k = a;
    while k < b
        invariant
            a <= k <= b <= s@.len(),
            r@ == s@.subrange(a as int, k as int),
        decreases b - k,
    {
        r.push(s[k]);
        k += 1;
        assert(r@ =~= s@.subrange(a as int, k as int));
    }
    r
}

/// Why a decimal `u8` could not be read, as `core::num::IntErrorKind` names it.
#[derive(Debug, Clone, Copy, PartialEq, Eq, Structural)]
pub enum IntErrorKind {
    Empty,
    InvalidDigit,
    PosOverflow,
}

/// Value of an ASCII decimal digit.
pub open spec fn digit_value(c: char) -> int {
    c as int - '0' as int
}

pub open spec fn is_digit(c: char) -> bool {
    '0' <= c <= '9'
}

/// Reading the decimal digits `d` from the left, starting from `acc`: the value, or the
/// first failure met, an invalid digit or a value above 255.
pub open spec fn read_digits(d: Seq<char>, acc: int) -> Result<int, IntErrorKind>
    decreases d.len(),
{
    if d.len() == 0 {
        Ok(acc)
    } else if !is_digit(d[0]) {
        Err(IntErrorKind::InvalidDigit)
    } else if acc * 10 + digit_value(d[0]) > 255 {
        Err(IntErrorKind::PosOverflow)
    } else {
        read_digits(d.drop_first(), acc * 10 + digit_value(d[0]))
    }
}

/// `s` read as a decimal `u8` the way `u8::from_str` reads it: an optional leading `+`,
/// then one or more ASCII digits, scanned from the left and failing at the first
/// non-digit or at the first digit that takes the value past 255.
pub open spec fn parse_u8_spec(s: Seq<char>) -> Result<u8, IntErrorKind> {
    if s.len() == 0 {
        Err(IntErrorKind::Empty)
    } else if s.len() == 1 && (s[0] == '+' || s[0] == '-') {
        Err(IntErrorKind::InvalidDigit)
    } else {
        let d = if s[0] == '+' {
            s.drop_first()
        } else {
            s
        };
        match read_digits(d, 0) {
            Ok(v) => Ok(v as u8),
            Err(e) => Err(e),
        }
    }
}

proof fn lemma_read_digits_bound(d: Seq<char>, acc: int)
    requires
        0 <= acc <= 255,
    ensures
        read_digits(d, acc) matches Ok(v) ==> 0 <= v <= 255,
    decreases d.len(),
{
    if d.len() > 0 && is_digit(d[0]) && acc * 10 + digit_value(d[0]) <= 255 {
        lemma_read_digits_bound(d.drop_first(), acc * 10 + digit_value(d[0]));
    }
}

proof fn lemma_read_digits_step(d: Seq<char>, i: int, acc: int)
    requires
        0 <= i < d.len(),
    ensures
        read_digits(d.subrange(i, d.len() as int), acc) == (if !is_digit(d[i]) {
            Err(IntErrorKind::InvalidDigit)
        } else if acc * 10 + digit_value(d[i]) > 255 {
            Err(IntErrorKind::PosOverflow)
        } else {
            read_digits(d.subrange(i + 1, d.len() as int), acc * 10 + digit_value(d[i]))
        }),
{
    let t = d.subrange(i, d.len() as int);
    assert(t.drop_first() =~= d.subrange(i + 1, d.len() as int));
    assert(t[0] == d[i]);
}

/// Read `s[lo..hi]` as a decimal `u8`, exactly as `u8::from_str` does.
pub fn parse_u8(s: &Vec<char>, lo: usize, hi: usize) -> (r: Result<u8, IntErrorKind>)
    requires
        lo <= hi <= s@.len(),
    ensures
        r == parse_u8_spec(s@.subrange(lo as int, hi as int)),
{
    let ghost t = s@.subrange(lo as int, hi as int);
    if lo == hi {
        return Err(IntErrorKind::Empty);
    }
    if hi - lo == 1 && (s[lo] == '+' || s[lo] == '-') {
        return Err(IntErrorKind::InvalidDigit);
    }
    let start = if s[lo] == '+' {
        lo + 1
    } else {
        lo
    };
    let ghost d = s@.subrange(start as int, hi as int);
    proof {
        assert(t.len() > 0);
        assert(t[0] == s@[lo as int]);
        assert(!(t.len() == 1 && (t[0] == '+' || t[0] == '-')));
        if s@[lo as int] == '+' {
            assert(t.drop_first() =~= d);
        } else {
            assert(t =~= d);
        }
        assert(parse_u8_spec(t) == match read_digits(d, 0) {
            Ok(v) => Ok(v as u8),
            Err(e) => Err::<u8, IntErrorKind>(e),
        });
    }
    let mut acc: u32 = 0;
    let mut i = start;
    while i < hi
        invariant
            lo <= start <= i <= hi <= s@.len(),
            d == s@.subrange(start as int, hi as int),
            t == s@.subrange(lo as int, hi as int),
            parse_u8_spec(t) == match read_digits(d, 0) {
                Ok(v) => Ok(v as u8),
                Err(e) => Err::<u8, IntErrorKind>(e),
            },
            acc <= 255,
            read_digits(d, 0) == read_digits(s@.subrange(i as int, hi as int), acc as int),
        decreases hi - i,
    {
        let c = s[i];
        proof {
            lemma_read_digits_step(s@.subrange(start as int, hi as int), i - start, acc as int);
            assert(s@.subrange(start as int, hi as int).subrange(i - start, hi - start) =~= s@.subrange(
                i as int,
                hi as int,
            ));
            assert(s@.subrange(start as int, hi as int).subrange(i - start + 1, hi - start)
                =~= s@.subrange(i + 1, hi as int));
        }
        if !('0' <= c && c <= '9') {
            assert(read_digits(d, 0) == Err::<int, IntErrorKind>(IntErrorKind::InvalidDigit));
            assert(parse_u8_spec(t) == Err::<u8, IntErrorKind>(IntErrorKind::InvalidDigit));
            return Err(IntErrorKind::InvalidDigit);
        }
        let v = acc * 10 + (c as u32 - '0' as u32);
        if v > 255 {
            assert(read_digits(d, 0) == Err::<int, IntErrorKind>(IntErrorKind::PosOverflow));
            assert(parse_u8_spec(t) == Err::<u8, IntErrorKind>(IntErrorKind::PosOverflow));
            return Err(IntErrorKind::PosOverflow);
        }
        acc = v;
        i += 1;
    }
    proof {
        assert(s@.subrange(i as int, hi as int) =~= Seq::<char>::empty());
    }
    Ok(acc as u8)
}

/// Index of the first `..` in `s` at or after index `i`, if there is one.
pub open spec fn dots_from(s: Seq<char>, i: int) -> Option<int>
    decreases s.len() - i,
{
    if i < 0 || i + 1 >= s.len() {
        None
    } else if s[i] == '.' && s[i + 1] == '.' {
        Some(i)
    } else {
        dots_from(s, i + 1)
    }
}

/// Index of the first `..` in `s`, if there is one.
pub open spec fn first_dots(s: Seq<char>) -> Option<int> {
    dots_from(s, 0)
}

/// Index of the first `..` in `s`, as `str::split_once("..")` finds it.
pub fn find_dots(s: &Vec<char>) -> (r: Option<usize>)
    ensures
        r matches Some(i) ==> first_dots(s@) == Some(i as int) && i + 1 < s@.len(),
        r is None ==> first_dots(s@) is None,
{
    let mut i: usize = 0;
    while s.len() > 1 && i < s.len() - 1
        invariant
            i <= s@.len(),
            first_dots(s@) == dots_from(s@, i as int),
        decreases s@.len() - i,
    {
        if s[i] == '.' && s[i + 1] == '.' {
            return Some(i);
        }
        i += 1;
    }
    None
}

/// Builds a `String` from characters with `String::from_iter`.
///
/// Claimed of std: the string holds exactly those characters, in order.
#[verifier::external_body]
pub(crate) fn string_from_chars(chars: &[char]) -> (r: String)
    ensures
        r@ == chars@,
{
    chars.iter().collect()
}

/// The lowercase form of a string, as `str::to_lowercase` gives it (Unicode lowercase
/// mapping, character by character, with its context rules).
pub uninterp spec fn lowercase(s: Seq<char>) -> Seq<char>;

/// ASCII lowercase of a character.
pub open spec fn ascii_lower(c: char) -> char {
    if 'A' <= c <= 'Z' {
        ((c as u32) + 32) as char
    } else {
        c
    }
}

/// Every character of `s` is ASCII.
pub open spec fn is_ascii_text(s: Seq<char>) -> bool {
    forall|i: int| 0 <= i < s.len() ==> (#[trigger] s[i] as u32) < 128
}

/// `s` with `A`..`Z` sent to `a`..`z` and every other character kept.
pub open spec fn ascii_lowered(s: Seq<char>) -> Seq<char> {
    s.map_values(|c: char| ascii_lower(c))
}

proof fn lemma_trim_start_ascii(s: Seq<char>)
    requires
        is_ascii_text(s),
    ensures
        is_ascii_text(trim_start(s)),
    decreases s.len(),
{
    if s.len() > 0 && is_space(s[0]) {
        assert(is_ascii_text(s.drop_first())) by {
            assert forall|i: int| 0 <= i < s.drop_first().len() implies (
            #[trigger] s.drop_first()[i] as u32) < 128 by {
                assert(s.drop_first()[i] == s[i + 1]);
            }
        }
        lemma_trim_start_ascii(s.drop_first());
    }
}

proof fn lemma_trim_end_ascii(s: Seq<char>)
    requires
        is_ascii_text(s),
    ensures
        is_ascii_text(trim_end(s)),
    decreases s.len(),
{
    if s.len() > 0 && is_space(s.last()) {
        assert(is_ascii_text(s.drop_last())) by {
            assert forall|i: int| 0 <= i < s.drop_last().len() implies (
            #[trigger] s.drop_last()[i] as u32) < 128 by {
                assert(s.drop_last()[i] == s[i]);
            }
        }
        lemma_trim_end_ascii(s.drop_last());
    }
}

/// Trimming keeps ASCII text ASCII.
pub proof fn lemma_trimmed_ascii(s: Seq<char>)
    requires
        is_ascii_text(s),
    ensures
        is_ascii_text(trimmed(s)),
{
    lemma_trim_start_ascii(s);
    lemma_trim_end_ascii(trim_start(s));
}

/// Calls `str::to_lowercase`.
///
/// Claimed of std: the result is a function of the characters alone, named
/// [`lowercase`]; for pure ASCII input it is the ASCII lowercase of every character
/// (std's documentation: lowercase is the Unicode `Lowercase` mapping, which sends `A`..`Z`
/// to `a`..`z` and leaves every other ASCII character as it is). Nothing more is stated of
/// non-ASCII input.
#[verifier::external_body]
pub(crate) fn to_lowercase(s: &str) -> (r: String)
    ensures
        r@ == lowercase(s@),
        is_ascii_text(s@) ==> r@ == ascii_lowered(s@),
{
    s.to_lowercase()
}

/// `s` without its leading `.` characters, as `str::trim_start_matches('.')` gives it.
pub open spec fn strip_leading_dots(s: Seq<char>) -> Seq<char>
    decreases s.len(),
{
    if s.len() > 0 && s[0] == '.' {
        strip_leading_dots(s.drop_first())
    } else {
        s
    }
}

proof fn lemma_strip_dots_skip(s: Seq<char>, i: int)
    requires
        0 <= i <= s.len(),
        forall|k: int| 0 <= k < i ==> #[trigger] s[k] == '.',
    ensures
        strip_leading_dots(s) == strip_leading_dots(s.subrange(i, s.len() as int)),
    decreases i,
{
    if i > 0 {
        assert(s.drop_first() =~= s.subrange(1, s.len() as int));
        lemma_strip_dots_skip(s.drop_first(), i - 1);
        assert(s.drop_first().subrange(i - 1, s.drop_first().len() as int) =~= s.subrange(
            i,
            s.len() as int,
        ));
    } else {
        assert(s =~= s.subrange(0, s.len() as int));
    }
}

/// The characters of `s` after its leading `.` characters.
pub fn without_leading_dots(s: &Vec<char>) -> (r: Vec<char>)
    ensures
        r@ == strip_leading_dots(s@),
{
    let mut a: usize = 0;
    while a < s.len() && s[a] == '.'
        invariant
            a <= s@.len(),
            forall|k: int| 0 <= k < a ==> #[trigger] s@[k] == '.',
        decreases s@.len() - a,
    {
        a += 1;
    }
    proof {
        lemma_strip_dots_skip(s@, a as int);
        if a < s.len() {
            assert(s@.subrange(a as int, s@.len() as int)[0] != '.');
        } else {
            assert(s@.subrange(a as int, s@.len() as int) =~= Seq::<char>::empty());
        }
    }
    let mut r: Vec<char> = Vec::new();
    let mut k = a;
    while k < s.len()
        invariant
            a <= k <= s@.len(),
            r@ == s@.subrange(a as int, k as int),
        decreases s@.len() - k,
    {
        r.push(s[k]);
        k += 1;
        assert(r@ =~= s@.subrange(a as int, k as int));
    }
    r
}

/// Whether the characters `a` spell out the string `b`.
pub fn same_text(a: &[char], b: &str) -> (r: bool)
    ensures
        r == (a@ == b@),
{
    let bc = chars_of(b);
    if a.len() != bc.len() {
        return false;
    }
    let mut i: usize = 0;
    while i < a.len()
        invariant
            a@.len() == bc@.len(),
            bc@ == b@,
            0 <= i <= a@.len(),
            forall|k: int| 0 <= k < i ==> a@[k] == bc@[k],
        decreases a@.len() - i,
    {
        if a[i] != bc[i] {
            return false;
        }
        i += 1;
    }
    assert(a@ =~= b@);
    true
}

/// The characters `s[lo..hi]`.
pub fn sub_chars(s: &Vec<char>, lo: usize, hi: usize) -> (r: Vec<char>)
    requires
        lo <= hi <= s@.len(),
    ensures
        r@ == s@.subrange(lo as int, hi as int),
{
    let mut r: Vec<char> = Vec::new();
    let mut k = lo;
    while k < hi
        invariant
            lo <= k <= hi <= s@.len(),
            r@ == s@.subrange(lo as int, k as int),
        decreases hi - k,
    {
        r.push(s[k]);
        k += 1;
        assert(r@ =~= s@.subrange(lo as int, k as int));
    }
    r
}

} // verus!
