//! Base64 with the standard alphabet and padding, without line breaks (RFC 4648).

use vstd::prelude::*;
use vstd::slice::slice_subrange;

use crate::text::{all_ascii, ascii_chars, ascii_string};

verus! {

/// The digit for the six-bit value `v`.
pub open spec fn digit(v: int) -> char {
    if v < 26 {
        ('A' as u8 + v) as u8 as char
    } else if v < 52 {
        ('a' as u8 + (v - 26)) as u8 as char
    } else if v < 62 {
        ('0' as u8 + (v - 52)) as u8 as char
    } else if v == 62 {
        '+'
    } else {
        '/'
    }
}

/// The Base64 text of `data`: three bytes are read as four six-bit values, the most significant
/// first; what is left over at the end is filled up with zero bits, and the text with `=`.
pub open spec fn encoded(data: Seq<u8>) -> Seq<char>
    decreases data.len(),
{
    if data.len() == 0 {
        Seq::empty()
    } else if data.len() == 1 {
        let n = data[0] * 16;
        seq![digit(n / 64), digit(n % 64), '=', '=']
    } else if data.len() == 2 {
        let n = (data[0] * 256 + data[1]) * 4;
        seq![digit(n / 4096), digit(n / 64 % 64), digit(n % 64), '=']
    } else {
        let n = data[0] * 65536 + data[1] * 256 + data[2];
        seq![digit(n / 262144), digit(n / 4096 % 64), digit(n / 64 % 64), digit(n % 64)] + encoded(
            data.skip(3),
        )
    }
}

/// The six-bit value of a digit.
pub open spec fn digit_value(c: char) -> int {
    if 'A' <= c && c <= 'Z' {
        c as int - 'A' as int
    } else if 'a' <= c && c <= 'z' {
        c as int - 'a' as int + 26
    } else if '0' <= c && c <= '9' {
        c as int - '0' as int + 52
    } else if c == '+' {
        62
    } else if c == '/' {
        63
    } else {
        0
    }
}

/// The bytes that a Base64 text stands for.
pub open spec fn decoded(text: Seq<char>) -> Seq<u8>
    decreases text.len(),
{
    if text.len() < 4 {
        Seq::empty()
    } else {
        let n = digit_value(text[0]) * 262144 + digit_value(text[1]) * 4096 + digit_value(text[2])
            * 64 + digit_value(text[3]);
        let (b0, b1, b2) = ((n / 65536) as u8, (n / 256 % 256) as u8, (n % 256) as u8);
        if text[2] == '=' {
            seq![b0]
        } else if text[3] == '=' {
            seq![b0, b1]
        } else {
            seq![b0, b1, b2] + decoded(text.skip(4))
        }
    }
}

/// The digit for the six-bit value `v`, as a byte.
fn digit_byte(v: u8) -> (res: u8)
    requires
        v < 64,
    ensures
        res < 128,
        res as char == digit(v as int),
{
    if v < 26 {
        'A' as u8 + v
    } else if v < 52 {
        'a' as u8 + (v - 26)
    } else if v < 62 {
        '0' as u8 + (v - 52)
    } else if v == 62 {
        '+' as u8
    } else {
        '/' as u8
    }
}

/// Appends one ASCII byte.
fn push_ascii(out: &mut Vec<u8>, b: u8)
    requires
        all_ascii(old(out)@),
        b < 128,
    ensures
        all_ascii(final(out)@),
        ascii_chars(final(out)@) == ascii_chars(old(out)@).push(b as char),
{
    let ghost before = out@;
    out.push(b);
    assert(ascii_chars(out@) =~= ascii_chars(before).push(b as char));
}

/// Appends the digits of the group of three bytes that `rest` starts with.
fn push_group(out: &mut Vec<u8>, b0: u8, b1: u8, b2: u8, Ghost(rest): Ghost<Seq<u8>>)
    requires
        all_ascii(old(out)@),
        rest.len() >= 3,
        rest[0] == b0,
        rest[1] == b1,
        rest[2] == b2,
    ensures
        all_ascii(final(out)@),
        ascii_chars(final(out)@) + encoded(rest.skip(3)) == ascii_chars(old(out)@) + encoded(rest),
{
    let ghost start = ascii_chars(out@);
    proof {
        lemma_bits(b0, b1, b2);
    }
    push_ascii(out, digit_byte(b0 >> 2));
    push_ascii(out, digit_byte(((b0 & 3) << 4) | (b1 >> 4)));
    push_ascii(out, digit_byte(((b1 & 0xf) << 2) | (b2 >> 6)));
    push_ascii(out, digit_byte(b2 & 0x3f));
    proof {
        let n = b0 * 65536 + b1 * 256 + b2;
        let group = seq![
            digit(n / 262144),
            digit(n / 4096 % 64),
            digit(n / 64 % 64),
            digit(n % 64),
        ];
        assert(ascii_chars(out@) =~= start + group);
        assert(start + group + encoded(rest.skip(3)) =~= start + (group + encoded(rest.skip(3))));
    }
}

/// Appends the digits of the one or two bytes `rest` at the end of the data.
fn push_tail(out: &mut Vec<u8>, rest: &[u8])
    requires
        all_ascii(old(out)@),
        0 < rest@.len() < 3,
    ensures
        all_ascii(final(out)@),
        ascii_chars(final(out)@) == ascii_chars(old(out)@) + encoded(rest@),
{
    let ghost start = ascii_chars(out@);
    let b0 = rest[0];
    proof {
        lemma_bits_of_one(b0);
    }
    push_ascii(out, digit_byte(b0 >> 2));
    if rest.len() == 2 {
        let b1 = rest[1];
        proof {
            lemma_bits_of_two(b0, b1);
        }
        push_ascii(out, digit_byte(((b0 & 3) << 4) | (b1 >> 4)));
        push_ascii(out, digit_byte((b1 & 0xf) << 2));
    } else {
        push_ascii(out, digit_byte((b0 & 3) << 4));
        push_ascii(out, '=' as u8);
    }
    push_ascii(out, '=' as u8);
    assert(ascii_chars(out@) =~= start + encoded(rest@));
}

/// The Base64 text of `data`.
pub fn base64_encode(data: &[u8]) -> (res: String)
    ensures
        res@ == encoded(data@),
{
    let len = data.len();
    let mut out: Vec<u8> = Vec::new();
    let mut i: usize = 0;
    assert(data@.skip(0) =~= data@);
    assert(encoded(data@) =~= ascii_chars(out@) + encoded(data@));
    while len - i > 2
        invariant
            i <= len,
            len == data@.len(),
            all_ascii(out@),
            encoded(data@) == ascii_chars(out@) + encoded(data@.skip(i as int)),
        decreases len - i,
    {
        push_group(&mut out, data[i], data[i + 1], data[i + 2], Ghost(data@.skip(i as int)));
        assert(data@.skip(i as int).skip(3) =~= data@.skip(i + 3));
        i += 3;
    }
    if i < len {
        assert(data@.skip(i as int) =~= data@.subrange(i as int, len as int));
        push_tail(&mut out, slice_subrange(data, i, len));
    }
    assert(encoded(data@) =~= ascii_chars(out@));
    ascii_string(&out)
}

/// Four six-bit values are the digits of the number that they make up.
proof fn lemma_digits(a: int, b: int, c: int, d: int)
    requires
        0 <= a,
        0 <= b < 64,
        0 <= c < 64,
        0 <= d < 64,
    ensures
        ({
            let n = a * 262144 + b * 4096 + c * 64 + d;
            &&& n / 262144 == a
            &&& n / 4096 % 64 == b
            &&& n / 64 % 64 == c
            &&& n % 64 == d
        }),
{
    let n = a * 262144 + b * 4096 + c * 64 + d;
    assert(n / 64 == a * 4096 + b * 64 + c);
    assert(n / 4096 == a * 64 + b);
}

/// The six-bit values of three bytes, by shifting and by dividing.
proof fn lemma_bits(b0: u8, b1: u8, b2: u8)
    ensures
        ({
            let n = b0 * 65536 + b1 * 256 + b2;
            &&& b0 >> 2 == n / 262144
            &&& ((b0 & 3) << 4) | (b1 >> 4) == n / 4096 % 64
            &&& ((b1 & 0xf) << 2) | (b2 >> 6) == n / 64 % 64
            &&& b2 & 0x3f == n % 64
        }),
        b0 >> 2 < 64,
        ((b0 & 3) << 4) | (b1 >> 4) < 64,
        ((b1 & 0xf) << 2) | (b2 >> 6) < 64,
        b2 & 0x3f < 64,
{
    let (v0, v1, v2, v3) = (
        b0 >> 2,
        ((b0 & 3) << 4) | (b1 >> 4),
        ((b1 & 0xf) << 2) | (b2 >> 6),
        b2 & 0x3f,
    );
    assert(v0 == b0 / 4 && v0 < 64) by (bit_vector)
        requires
            v0 == b0 >> 2,
    ;
    assert(v1 == (b0 % 4) * 16 + b1 / 16 && v1 < 64) by (bit_vector)
        requires
            v1 == ((b0 & 3) << 4) | (b1 >> 4),
    ;
    assert(v2 == (b1 % 16) * 4 + b2 / 64 && v2 < 64) by (bit_vector)
        requires
            v2 == ((b1 & 0xf) << 2) | (b2 >> 6),
    ;
    assert(v3 == b2 % 64 && v3 < 64) by (bit_vector)
        requires
            v3 == b2 & 0x3f,
    ;
    lemma_digits(v0 as int, v1 as int, v2 as int, v3 as int);
    assert(b0 * 65536 + b1 * 256 + b2 == v0 * 262144 + v1 * 4096 + v2 * 64 + v3);
}

/// The six-bit values of two bytes at the end of the data.
proof fn lemma_bits_of_two(b0: u8, b1: u8)
    ensures
        ({
            let n = (b0 * 256 + b1) * 4;
            &&& b0 >> 2 == n / 4096
            &&& ((b0 & 3) << 4) | (b1 >> 4) == n / 64 % 64
            &&& (b1 & 0xf) << 2 == n % 64
        }),
        b0 >> 2 < 64,
        ((b0 & 3) << 4) | (b1 >> 4) < 64,
        (b1 & 0xf) << 2 < 64,
{
    lemma_bits(b0, b1, 0);
    assert(((b1 & 0xf) << 2) | (0u8 >> 6) == (b1 & 0xf) << 2) by (bit_vector);
    let n = (b0 * 256 + b1) * 4;
    assert(b0 * 65536 + b1 * 256 + 0u8 == n * 64);
    assert(n * 64 / 64 == n);
    assert(n * 64 / 4096 == n / 64);
    assert(n * 64 / 262144 == n / 4096);
}

/// The six-bit values of one byte at the end of the data.
proof fn lemma_bits_of_one(b0: u8)
    ensures
        b0 >> 2 == b0 * 16 / 64,
        (b0 & 3) << 4 == b0 * 16 % 64,
        b0 >> 2 < 64,
        (b0 & 3) << 4 < 64,
{
    assert(b0 >> 2 == b0 / 4 && b0 >> 2 < 64) by (bit_vector);
    assert((b0 & 3) << 4 == (b0 % 4) * 16 && (b0 & 3) << 4 < 64) by (bit_vector);
}

/// A digit has its value.
proof fn lemma_digit_value(v: int)
    requires
        0 <= v < 64,
    ensures
        digit_value(digit(v)) == v,
        digit(v) != '=',
{
}

/// Decoding a group of four digits gives the three bytes that they stand for.
proof fn lemma_group_decodes(n: int, text: Seq<char>)
    requires
        0 <= n < 16777216,
        text.len() >= 4,
        text[0] == digit(n / 262144),
        text[1] == digit(n / 4096 % 64),
        text[2] == digit(n / 64 % 64) || (text[2] == '=' && n / 64 % 64 == 0),
        text[3] == digit(n % 64) || (text[3] == '=' && n % 64 == 0),
    ensures
        n == digit_value(text[0]) * 262144 + digit_value(text[1]) * 4096 + digit_value(text[2]) * 64
            + digit_value(text[3]),
{
    lemma_digit_value(n / 262144);
    lemma_digit_value(n / 4096 % 64);
    lemma_digit_value(n / 64 % 64);
    lemma_digit_value(n % 64);
    assert(n / 4096 == n / 262144 * 64 + n / 4096 % 64);
    assert(n / 64 == n / 4096 * 64 + n / 64 % 64);
}

/// Three bytes are the base-256 digits of the number that they make up.
proof fn lemma_bytes(b0: u8, b1: u8, b2: u8)
    ensures
        ({
            let n = b0 * 65536 + b1 * 256 + b2;
            n / 65536 == b0 && n / 256 % 256 == b1 && n % 256 == b2
        }),
{
    let n = b0 * 65536 + b1 * 256 + b2;
    assert(n / 256 == b0 * 256 + b1);
    assert(n / 65536 == b0);
}

/// A single byte is decoded.
proof fn lemma_one_decodes(data: Seq<u8>)
    requires
        data.len() == 1,
    ensures
        decoded(encoded(data)) == data,
{
    let text = encoded(data);
    let n = data[0] * 65536 + 0u8 * 256 + 0u8;
    lemma_bytes(data[0], 0, 0);
    assert(n / 262144 == data[0] * 16 / 64);
    assert(n / 4096 == data[0] * 16);
    assert(n / 64 == data[0] * 1024);
    assert(n / 64 % 64 == 0 && n % 64 == 0);
    lemma_group_decodes(n, text);
    assert(decoded(text) =~= data);
}

/// Two bytes are decoded.
proof fn lemma_two_decodes(data: Seq<u8>)
    requires
        data.len() == 2,
    ensures
        decoded(encoded(data)) == data,
{
    let text = encoded(data);
    let m = (data[0] * 256 + data[1]) * 4;
    let n = data[0] * 65536 + data[1] * 256 + 0u8;
    lemma_bytes(data[0], data[1], 0);
    assert(n == m * 64);
    assert(n / 64 == m);
    assert(n / 4096 == m / 64);
    assert(n / 262144 == m / 4096);
    assert(n % 64 == 0);
    lemma_digit_value(m % 64);
    lemma_group_decodes(n, text);
    assert(decoded(text) =~= data);
}

/// A first group of three bytes is decoded.
proof fn lemma_group_of_three_decodes(data: Seq<u8>)
    requires
        data.len() >= 3,
    ensures
        decoded(encoded(data)) == seq![data[0], data[1], data[2]] + decoded(
            encoded(data.skip(3)),
        ),
{
    let text = encoded(data);
    let n = data[0] * 65536 + data[1] * 256 + data[2];
    lemma_bytes(data[0], data[1], data[2]);
    lemma_digit_value(n / 64 % 64);
    lemma_digit_value(n % 64);
    lemma_group_decodes(n, text);
    assert(text.skip(4) =~= encoded(data.skip(3)));
}

/// Decoding gives back what was encoded.
pub proof fn law_decodes_to_the_data(data: Seq<u8>)
    ensures
        decoded(encoded(data)) == data,
    decreases data.len(),
{
    if data.len() == 0 {
        assert(decoded(encoded(data)) =~= data);
    } else if data.len() == 1 {
        lemma_one_decodes(data);
    } else if data.len() == 2 {
        lemma_two_decodes(data);
    } else {
        lemma_group_of_three_decodes(data);
        law_decodes_to_the_data(data.skip(3));
        assert(seq![data[0], data[1], data[2]] + data.skip(3) =~= data);
    }
}

/// The text has four characters for every three bytes begun.
pub proof fn law_encoded_length(data: Seq<u8>)
    ensures
        encoded(data).len() == (data.len() + 2) / 3 * 4,
    decreases data.len(),
{
    if data.len() >= 3 {
        law_encoded_length(data.skip(3));
    }
}

/// The text holds nothing but digits of the alphabet and `=`.
pub proof fn law_encoded_alphabet(data: Seq<u8>, i: int)
    requires
        0 <= i < encoded(data).len(),
    ensures
        ({
            let c = encoded(data)[i];
            ||| 'A' <= c && c <= 'Z'
            ||| 'a' <= c && c <= 'z'
            ||| '0' <= c && c <= '9'
            ||| c == '+' || c == '/' || c == '='
        }),
    decreases data.len(),
{
    if data.len() >= 3 && i >= 4 {
        law_encoded_alphabet(data.skip(3), i - 4);
    } else if data.len() >= 3 {
        let n = data[0] * 65536 + data[1] * 256 + data[2];
        assert(0 <= n / 262144 < 64);
    }
}

/// The text ends with one `=` where two bytes are left over and with two where one is, and there
/// is no other `=` in it.
pub proof fn law_padding_is_at_the_end(data: Seq<u8>, i: int)
    requires
        0 <= i < encoded(data).len(),
    ensures
        encoded(data)[i] == '=' <==> i >= encoded(data).len() - (3 - data.len() % 3) % 3,
    decreases data.len(),
{
    law_encoded_length(data);
    if data.len() >= 3 {
        let n = data[0] * 65536 + data[1] * 256 + data[2];
        lemma_digit_value(n / 262144);
        lemma_digit_value(n / 4096 % 64);
        lemma_digit_value(n / 64 % 64);
        lemma_digit_value(n % 64);
        law_encoded_length(data.skip(3));
        if i >= 4 {
            law_padding_is_at_the_end(data.skip(3), i - 4);
        }
    } else if data.len() == 2 {
        let n = (data[0] * 256 + data[1]) * 4;
        lemma_digit_value(n / 4096);
        lemma_digit_value(n / 64 % 64);
        lemma_digit_value(n % 64);
    } else {
        lemma_digit_value(data[0] * 16 / 64);
        lemma_digit_value(data[0] * 16 % 64);
    }
}

/// The digits are those of the alphabet, in its order.
pub proof fn law_digits_are_the_alphabet(v: int)
    requires
        0 <= v < 64,
    ensures
        digit(v) == "ABCDEFGHIJKLMNOPQRSTUVWXYZabcdefghijklmnopqrstuvwxyz0123456789+/"@[v],
{
    reveal_strlit("ABCDEFGHIJKLMNOPQRSTUVWXYZabcdefghijklmnopqrstuvwxyz0123456789+/");
}

/// Each group of four digits holds the bits of three bytes: six of the first, its other two and
/// four of the second, its other four and two of the third, and the other six of it.
pub proof fn law_groups_hold_the_bits(data: Seq<u8>, g: int)
    requires
        0 <= g,
        3 * g + 3 <= data.len(),
    ensures
        ({
            let (a, b, c) = (data[3 * g] as int, data[3 * g + 1] as int, data[3 * g + 2] as int);
            let text = encoded(data);
            &&& 4 * g + 4 <= text.len()
            &&& text[4 * g] == digit(a / 4)
            &&& text[4 * g + 1] == digit(a % 4 * 16 + b / 16)
            &&& text[4 * g + 2] == digit(b % 16 * 4 + c / 64)
            &&& text[4 * g + 3] == digit(c % 64)
        }),
    decreases g,
{
    let n = data[0] * 65536 + data[1] * 256 + data[2];
    if g == 0 {
        let (a, b, c) = (data[0] as int, data[1] as int, data[2] as int);
        lemma_digits(a / 4, a % 4 * 16 + b / 16, b % 16 * 4 + c / 64, c % 64);
    } else {
        law_groups_hold_the_bits(data.skip(3), g - 1);
    }
}

/// One byte left over at the end, behind `g` groups, is written as if zeros followed, as far as they
/// fill a digit.
pub proof fn law_last_byte_is_written(data: Seq<u8>, g: int)
    requires
        0 <= g,
        data.len() == 3 * g + 1,
    ensures
        ({
            let a = data[3 * g] as int;
            let text = encoded(data);
            &&& text.len() == 4 * g + 4
            &&& text[4 * g] == digit(a / 4)
            &&& text[4 * g + 1] == digit(a % 4 * 16)
        }),
    decreases g,
{
    if g > 0 {
        let rest = data.skip(3);
        law_last_byte_is_written(rest, g - 1);
        assert(rest[3 * (g - 1)] == data[3 * g]);
    }
}

/// Two bytes left over at the end, behind `g` groups, are written as if zeros followed, as far as
/// they fill a digit.
pub proof fn law_last_two_bytes_are_written(data: Seq<u8>, g: int)
    requires
        0 <= g,
        data.len() == 3 * g + 2,
    ensures
        ({
            let (a, b) = (data[3 * g] as int, data[3 * g + 1] as int);
            let text = encoded(data);
            &&& text.len() == 4 * g + 4
            &&& text[4 * g] == digit(a / 4)
            &&& text[4 * g + 1] == digit(a % 4 * 16 + b / 16)
            &&& text[4 * g + 2] == digit(b % 16 * 4)
        }),
    decreases g,
{
    if g > 0 {
        let rest = data.skip(3);
        law_last_two_bytes_are_written(rest, g - 1);
        assert(rest[3 * (g - 1)] == data[3 * g]);
        assert(rest[3 * (g - 1) + 1] == data[3 * g + 1]);
    } else {
        let (a, b) = (data[0] as int, data[1] as int);
        let n = (a * 256 + b) * 4;
        assert(n / 64 == a * 16 + b / 16);
        assert(n / 4096 == a / 4);
        assert((a * 16 + b / 16) % 64 == a % 4 * 16 + b / 16);
        assert(n % 64 == b % 16 * 4);
    }
}

} // verus!
