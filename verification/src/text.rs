//! Text helpers: names stored as bytes, and the conversions to `String` that std provides.
use vstd::prelude::*;
use vstd::utf8::*;

verus! {

/// The index of the first zero byte of `b` at or after `i`, or `b.len()` when there is none.
pub open spec fn first_zero_from(b: Seq<u8>, i: int) -> int
    decreases b.len() - i,
{
    if i >= b.len() {
        b.len() as int
    } else if b[i] == 0 {
        i
    } else {
        first_zero_from(b, i + 1)
    }
}

/// `b` up to (not including) its first zero byte.
pub open spec fn nul_prefix(b: Seq<u8>) -> Seq<u8> {
    b.take(first_zero_from(b, 0))
}

/// The characters that `b` encodes in UTF-8, or nothing when `b` is not UTF-8.
pub open spec fn utf8_or_empty(b: Seq<u8>) -> Seq<char> {
    if valid_utf8(b) {
        decode_utf8(b)
    } else {
        Seq::empty()
    }
}

/// Each byte taken as the character with that code (U+0000 to U+00FF).
pub open spec fn latin1(b: Seq<u8>) -> Seq<char> {
    b.map_values(|x: u8| x as char)
}

pub proof fn lemma_first_zero_bounds(b: Seq<u8>, i: int)
    requires
        0 <= i <= b.len(),
    ensures
        i <= first_zero_from(b, i) <= b.len(),
        first_zero_from(b, i) < b.len() ==> b[first_zero_from(b, i)] == 0,
        forall|k: int| i <= k < first_zero_from(b, i) ==> b[k] != 0,
    decreases b.len() - i,
{
    if i < b.len() && b[i] != 0 {
        lemma_first_zero_bounds(b, i + 1);
    }
}

/// The length of the part of `b` before its first zero byte.
pub fn nul_position(b: &[u8]) -> (r: usize)
    ensures
        r == first_zero_from(b@, 0),
{
    let mut i: usize = 0;
    while i < b.len() && b[i] != 0
        invariant
            i <= b@.len(),
            first_zero_from(b@, 0) == first_zero_from(b@, i as int),
        decreases b@.len() - i,
    {
        i = i + 1;
    }
    i
}

/// `b[..end]`.
pub(crate) fn bytes_prefix(b: &[u8], end: usize) -> (r: &[u8])
    requires
        end <= b@.len(),
    ensures
        r@ == b@.take(end as int),
{
    let r = vstd::slice::slice_subrange(b, 0, end);
    assert(r@ =~= b@.take(end as int));
    r
}

/// `std::str::from_utf8`: the text that `b` encodes, where `b` is valid UTF-8.
#[verifier::external_body]
pub(crate) fn str_from_utf8(b: &[u8]) -> (r: Option<&str>)
    ensures
        r is Some <==> valid_utf8(b@),
        r matches Some(s) ==> s@ == decode_utf8(b@),
{
    std::str::from_utf8(b).ok()
}

/// The text of `String::from_utf8_lossy`: invalid sequences become U+FFFD.
pub uninterp spec fn utf8_lossy(b: Seq<u8>) -> Seq<char>;

/// `String::from_utf8_lossy`, owned. Valid UTF-8 is decoded as is; how invalid
/// sequences are replaced is left to the name `utf8_lossy`.
#[verifier::external_body]
pub(crate) fn lossy_string(b: &[u8]) -> (r: String)
    ensures
        r@ == utf8_lossy(b@),
        valid_utf8(b@) ==> r@ == decode_utf8(b@),
{
    String::from_utf8_lossy(b).into_owned()
}

/// `String::push`: appends one character.
#[verifier::external_body]
pub(crate) fn push_char(s: &mut String, c: char)
    ensures
        final(s)@ == old(s)@.push(c),
{
    s.push(c)
}

/// Whether `char::is_alphanumeric` holds of a character (Unicode Alphabetic or Numeric).
pub uninterp spec fn char_is_alphanumeric(c: char) -> bool;

/// An ASCII letter or digit.
pub open spec fn is_ascii_alnum(c: char) -> bool {
    ('0' <= c && c <= '9') || ('A' <= c && c <= 'Z') || ('a' <= c && c <= 'z')
}

/// `char::is_alphanumeric`. For ASCII characters it holds exactly of letters and digits;
/// beyond ASCII the Unicode tables decide, which the name `char_is_alphanumeric` stands for.
#[verifier::external_body]
pub(crate) fn is_alphanumeric(c: char) -> (r: bool)
    ensures
        r == char_is_alphanumeric(c),
        (c as u32) < 0x80 ==> (r <==> is_ascii_alnum(c)),
{
    c.is_alphanumeric()
}

/// A `String` with the characters of `b` taken one byte per character.
pub fn latin1_string(b: &[u8]) -> (s: String)
    ensures
        s@ == latin1(b@),
{
    let mut s = String::new();
    let mut i: usize = 0;
    while i < b.len()
        invariant
            i <= b@.len(),
            s@ == latin1(b@.take(i as int)),
        decreases b@.len() - i,
    {
        push_char(&mut s, b[i] as char);
        i = i + 1;
        assert(s@ =~= latin1(b@.take(i as int)));
    }
    assert(b@.take(i as int) =~= b@);
    s
}

/// A `String` holding exactly the characters `c`.
pub fn string_from_chars(c: &Vec<char>) -> (s: String)
    ensures
        s@ == c@,
{
    let mut s = String::new();
    let mut i: usize = 0;
    while i < c.len()
        invariant
            i <= c@.len(),
            s@ == c@.take(i as int),
        decreases c@.len() - i,
    {
        push_char(&mut s, c[i]);
        i = i + 1;
        assert(s@ =~= c@.take(i as int));
    }
    assert(c@.take(i as int) =~= c@);
    s
}

/// The characters of `s`, in order.
pub fn chars_of(s: &str) -> (v: Vec<char>)
    ensures
        v@ == s@,
{
    let n = s.unicode_len();
    let mut v: Vec<char> = Vec::new();
    let mut i: usize = 0;
    while i < n
        invariant
            n == s@.len(),
            i <= n,
            v@ == s@.take(i as int),
        decreases n - i,
    {
        let c = s.get_char(i);
        v.push(c);
        i = i + 1;
        assert(v@ =~= s@.take(i as int));
    }
    assert(s@.take(n as int) =~= s@);
    v
}

/// `s` as an owned `String`.
pub fn owned(s: &str) -> (r: String)
    ensures
        r@ == s@,
{
    String::from_str(s)
}

/// Whether two texts are equal.
pub fn str_eq(a: &str, b: &str) -> (r: bool)
    ensures
        r == (a@ == b@),
{
    let x = owned(a);
    let y = owned(b);
    x.eq(&y)
}

/// The low `n` hexadecimal digits of `v` (`n <= 8`), most significant first, lowercase.
pub open spec fn hex_digits(v: u32, n: nat) -> Seq<char> {
    Seq::new(n, |i: int| hex_char(((v >> ((4 * (n - 1 - i)) as u32)) & 0xf) as u8))
}

pub open spec fn hex_char(d: u8) -> char {
    if d < 10 {
        ((48 + d) as u8) as char
    } else {
        ((97 + d - 10) as u8) as char
    }
}

/// The `{:#0w x}` rendering of `v` when its digits fit in `n = w - 2`: `0x`, then `n` digits.
pub open spec fn hex_text(v: u32, n: nat) -> Seq<char> {
    seq!['0', 'x'] + hex_digits(v, n)
}

/// `0x` followed by the low `n` hexadecimal digits of `v`, zero-padded.
pub fn hex_string(v: u32, n: usize) -> (s: String)
    requires
        1 <= n <= 8,
    ensures
        s@ == hex_text(v, n as nat),
{
    let mut s = String::new();
    push_char(&mut s, '0');
    push_char(&mut s, 'x');
    let mut i: usize = 0;
    while i < n
        invariant
            1 <= n <= 8,
            i <= n,
            s@ == seq!['0', 'x'] + hex_digits(v, n as nat).take(i as int),
        decreases n - i,
    {
        let sh: u32 = (4 * (n - 1 - i)) as u32;
        assert((v >> sh) & 0xf <= 0xf) by (bit_vector);
        let d: u8 = ((v >> sh) & 0xf) as u8;
        let c: char = if d < 10 {
            (48u8 + d) as char
        } else {
            (97u8 + d - 10) as char
        };
        push_char(&mut s, c);
        i = i + 1;
        assert(s@ =~= seq!['0', 'x'] + hex_digits(v, n as nat).take(i as int));
    }
    assert(hex_digits(v, n as nat).take(n as int) =~= hex_digits(v, n as nat));
    s
}

} // verus!
