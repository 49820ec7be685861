use vstd::prelude::*;
use vstd::std_specs::iter::IteratorSpec;

verus! {

/// One ASCII hexadecimal digit, either case.
pub open spec fn is_hex_digit(c: char) -> bool {
    ('0' <= c && c <= '9') || ('a' <= c && c <= 'f') || ('A' <= c && c <= 'F')
}

/// The value of a hexadecimal digit.
pub open spec fn hex_value(c: char) -> int {
    if '0' <= c && c <= '9' {
        c as int - '0' as int
    } else if 'a' <= c && c <= 'f' {
        c as int - 'a' as int + 10
    } else {
        c as int - 'A' as int + 10
    }
}

/// `#RRGGBB`: a hash sign followed by six hexadecimal digits.
pub open spec fn is_hex_color(s: Seq<char>) -> bool {
    &&& s.len() == 7
    &&& s[0] == '#'
    &&& forall|i: int| 1 <= i < 7 ==> is_hex_digit(#[trigger] s[i])
}

/// Channel `k` (0 red, 1 green, 2 blue) of a `#RRGGBB` color.
pub open spec fn channel_of(s: Seq<char>, k: int) -> int {
    16 * hex_value(s[1 + 2 * k]) + hex_value(s[2 + 2 * k])
}

pub open spec fn clamp_channel(v: int) -> int {
    if v < 0 {
        0
    } else if v > 255 {
        255
    } else {
        v
    }
}

/// The lowercase hexadecimal digit of `n` in [0, 15].
pub open spec fn hex_digit_char(n: int) -> char {
    if n < 10 {
        ('0' as int + n) as char
    } else {
        ('a' as int + n - 10) as char
    }
}

/// Two lowercase hexadecimal digits of a channel value in [0, 255].
pub open spec fn encode_channel(v: int) -> Seq<char> {
    seq![hex_digit_char(v / 16), hex_digit_char(v % 16)]
}

/// `#rrggbb` in lowercase.
pub open spec fn encode_rgb(r: int, g: int, b: int) -> Seq<char> {
    seq!['#'] + encode_channel(r) + encode_channel(g) + encode_channel(b)
}

/// The color `s` with `delta` added to each channel, each clamped to [0, 255].
pub open spec fn corrected_color(s: Seq<char>, delta: int) -> Seq<char> {
    encode_rgb(
        clamp_channel(channel_of(s, 0) + delta),
        clamp_channel(channel_of(s, 1) + delta),
        clamp_channel(channel_of(s, 2) + delta),
    )
}

/// An RGB triple, each channel in [0, 255].
#[derive(Clone, Copy, Debug, PartialEq, Eq, Structural)]
pub struct Rgb {
    pub r: u8,
    pub g: u8,
    pub b: u8,
}

impl Rgb {
    pub open spec fn hex_spec(self) -> Seq<char> {
        encode_rgb(self.r as int, self.g as int, self.b as int)
    }

    /// The color as `#rrggbb`, in lowercase.
    pub fn to_hex(&self) -> (r: String)
        ensures
            r@ == self.hex_spec(),
    {
        let mut v: Vec<char> = Vec::new();
        v.push('#');
        push_channel(&mut v, self.r);
        push_channel(&mut v, self.g);
        push_channel(&mut v, self.b);
        assert(v@ =~= self.hex_spec());
        chars_to_string(&v)
    }
}

pub proof fn lemma_hex_digit_round_trip(n: int)
    requires
        0 <= n < 16,
    ensures
        is_hex_digit(hex_digit_char(n)),
        hex_value(hex_digit_char(n)) == n,
{
}

/// Every encoded color is a well-formed `#RRGGBB` color.
pub proof fn lemma_encoded_is_color(r: int, g: int, b: int)
    requires
        0 <= r < 256,
        0 <= g < 256,
        0 <= b < 256,
    ensures
        is_hex_color(encode_rgb(r, g, b)),
        channel_of(encode_rgb(r, g, b), 0) == r,
        channel_of(encode_rgb(r, g, b), 1) == g,
        channel_of(encode_rgb(r, g, b), 2) == b,
{
    lemma_hex_digit_round_trip(r / 16);
    lemma_hex_digit_round_trip(r % 16);
    lemma_hex_digit_round_trip(g / 16);
    lemma_hex_digit_round_trip(g % 16);
    lemma_hex_digit_round_trip(b / 16);
    lemma_hex_digit_round_trip(b % 16);
    let s = encode_rgb(r, g, b);
    assert(s[1] == hex_digit_char(r / 16));
    assert(s[2] == hex_digit_char(r % 16));
    assert(s[3] == hex_digit_char(g / 16));
    assert(s[4] == hex_digit_char(g % 16));
    assert(s[5] == hex_digit_char(b / 16));
    assert(s[6] == hex_digit_char(b % 16));
}

fn hex_digit_value(c: char) -> (r: u8)
    requires
        is_hex_digit(c),
    ensures
        r as int == hex_value(c),
        r < 16,
{
    if '0' <= c && c <= '9' {
        (c as u32 - '0' as u32) as u8
    } else if 'a' <= c && c <= 'f' {
        (c as u32 - 'a' as u32 + 10) as u8
    } else {
        (c as u32 - 'A' as u32 + 10) as u8
    }
}

fn digit_char(n: u8) -> (c: char)
    requires
        n < 16,
    ensures
        c == hex_digit_char(n as int),
{
    if n < 10 {
        (n + 48) as char
    } else {
        (n + 87) as char
    }
}

fn push_channel(v: &mut Vec<char>, x: u8)
    ensures
        final(v)@ == old(v)@ + encode_channel(x as int),
{
    v.push(digit_char(x / 16));
    v.push(digit_char(x % 16));
    assert(final(v)@ =~= old(v)@ + encode_channel(x as int));
}

fn channel_at(c: &Vec<char>, k: usize) -> (r: u8)
    requires
        is_hex_color(c@),
        k < 3,
    ensures
        r as int == channel_of(c@, k as int),
{
    let hi = hex_digit_value(c[1 + 2 * k]);
    let lo = hex_digit_value(c[2 + 2 * k]);
    hi * 16 + lo
}

fn clamp_sum(v: u8, delta: i32) -> (r: u8)
    ensures
        r as int == clamp_channel(v as int + delta as int),
{
    let s: i64 = v as i64 + delta as i64;
    if s < 0 {
        0
    } else if s > 255 {
        255
    } else {
        s as u8
    }
}

/// Adds `correction` to each channel of the `#RRGGBB` color `color`, clamps each
/// channel to [0, 255], and returns the result as `#rrggbb` in lowercase.
pub fn correct_rgb_hex(color: &str, correction: i32) -> (r: String)
    requires
        is_hex_color(color@),
    ensures
        r@ == corrected_color(color@, correction as int),
{
    let c = string_to_chars(color);
    let rgb = Rgb {
        r: clamp_sum(channel_at(&c, 0), correction),
        g: clamp_sum(channel_at(&c, 1), correction),
        b: clamp_sum(channel_at(&c, 2), correction),
    };
    rgb.to_hex()
}

/// Relies on `Iterator::collect` into a `String`: the characters in order.
#[verifier::external_body]
pub(crate) fn chars_to_string(v: &Vec<char>) -> (r: String)
    ensures
        r@ == v@,
{
    v.iter().collect()
}

/// The characters of `s`, in order.
pub fn string_to_chars(s: &str) -> (r: Vec<char>)
    ensures
        r@ == s@,
{
    broadcast use vstd::string::axiom_spec_iter, vstd::string::next_postcondition;

    let mut it = s.chars();
    let mut v: Vec<char> = Vec::new();
    let mut done = false;
    while !done
        invariant
            done ==> v@ == s@,
            !done ==> v@ + IteratorSpec::remaining(&it) == s@,
            IteratorSpec::decrease(&it) is Some,
        decreases (if done { 0int } else { 1int }), IteratorSpec::decrease(&it)->0,
    {
        match it.next() {
            Some(ch) => {
                v.push(ch);
            },
            None => {
                done = true;
            },
        }
    }
    v
}

} // verus!
