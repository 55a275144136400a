//! Text made of ASCII characters, and decimal numbers.

use vstd::arithmetic::div_mod::lemma_fundamental_div_mod_converse;
use vstd::arithmetic::power::{lemma_pow_positive, pow};
use vstd::prelude::*;
use vstd::string::StringSliceAdditionalSpecFns;
use vstd::utf8::{
    encode_utf8, encode_utf8_decode_utf8, encode_utf8_valid_utf8, is_ascii_chars,
    is_ascii_chars_encode_utf8, valid_utf8,
};

use crate::scan::digits_value;

verus! {

/// The text that `bytes` hold, if they are valid UTF-8.
///
/// Calls [`std::str::from_utf8`]: it succeeds on valid UTF-8 and on nothing else, and the bytes
/// of the text are the bytes given.
#[verifier::external_body]
pub(crate) fn utf8_text(bytes: &[u8]) -> (res: Option<&str>)
    ensures
        res is Some == valid_utf8(bytes@),
        res matches Some(s) ==> s.spec_bytes() == bytes@,
{
    std::str::from_utf8(bytes).ok()
}

/// The bytes are all ASCII.
pub open spec fn all_ascii(bytes: Seq<u8>) -> bool {
    forall|i: int| 0 <= i < bytes.len() ==> #[trigger] bytes[i] < 128
}

/// ASCII bytes read as characters.
pub open spec fn ascii_chars(bytes: Seq<u8>) -> Seq<char> {
    Seq::new(bytes.len(), |i: int| bytes[i] as char)
}

/// ASCII bytes are the UTF-8 encoding of their characters.
pub proof fn lemma_ascii_utf8(bytes: Seq<u8>)
    requires
        all_ascii(bytes),
    ensures
        valid_utf8(bytes),
        encode_utf8(ascii_chars(bytes)) == bytes,
{
    let chars = ascii_chars(bytes);
    assert(is_ascii_chars(chars));
    is_ascii_chars_encode_utf8(chars);
    assert forall|i: int| 0 <= i < bytes.len() implies encode_utf8(chars)[i] == bytes[i] by {
        assert(chars[i] as u8 == bytes[i]);
    }
    assert(encode_utf8(chars) =~= bytes);
    encode_utf8_valid_utf8(chars);
}

/// The text of ASCII bytes.
pub fn ascii_string(bytes: &Vec<u8>) -> (res: String)
    requires
        all_ascii(bytes@),
    ensures
        res@ == ascii_chars(bytes@),
{
    proof {
        lemma_ascii_utf8(bytes@);
    }
    match utf8_text(bytes.as_slice()) {
        Some(s) => {
            proof {
                encode_utf8_decode_utf8(s@);
                encode_utf8_decode_utf8(ascii_chars(bytes@));
            }
            s.to_owned()
        },
        None => String::new(),
    }
}

/// The decimal digits of `n`.
pub open spec fn decimal(n: nat) -> Seq<char>
    decreases n,
{
    if n < 10 {
        seq![('0' as u8 + n) as u8 as char]
    } else {
        decimal(n / 10).push(('0' as u8 + n % 10) as u8 as char)
    }
}

/// The last `width` decimal digits of `n`, with leading zeros.
pub open spec fn padded(n: nat, width: nat) -> Seq<char>
    decreases width,
{
    if width == 0 {
        Seq::empty()
    } else {
        padded(n / 10, (width - 1) as nat).push(('0' as u8 + n % 10) as u8 as char)
    }
}

/// Appends the decimal digits of `n`.
fn push_decimal(out: &mut Vec<u8>, n: u64)
    requires
        all_ascii(old(out)@),
    ensures
        all_ascii(final(out)@),
        ascii_chars(final(out)@) == ascii_chars(old(out)@) + decimal(n as nat),
    decreases n,
{
    let ghost start = ascii_chars(out@);
    if n >= 10 {
        push_decimal(out, n / 10);
    }
    let ghost before = out@;
    out.push('0' as u8 + (n % 10) as u8);
    proof {
        let c = ('0' as u8 + n % 10) as u8 as char;
        assert(ascii_chars(out@) =~= ascii_chars(before).push(c));
        if n >= 10 {
            assert(ascii_chars(before) == start + decimal((n / 10) as nat));
            assert(start + decimal((n / 10) as nat).push(c) =~= (start + decimal(
                (n / 10) as nat,
            )).push(c));
        } else {
            assert(start + decimal(n as nat) =~= start.push(c));
        }
    }
}

/// The decimal digits of `n`.
pub fn decimal_string(n: u64) -> (res: String)
    ensures
        res@ == decimal(n as nat),
{
    let mut digits: Vec<u8> = Vec::new();
    push_decimal(&mut digits, n);
    assert(ascii_chars(Seq::<u8>::empty()) + decimal(n as nat) =~= decimal(n as nat));
    ascii_string(&digits)
}

/// Appends the last `width` decimal digits of `n`.
fn push_padded(out: &mut Vec<u8>, n: u64, width: u64)
    requires
        all_ascii(old(out)@),
    ensures
        all_ascii(final(out)@),
        ascii_chars(final(out)@) == ascii_chars(old(out)@) + padded(n as nat, width as nat),
    decreases width,
{
    let ghost start = ascii_chars(out@);
    if width > 0 {
        push_padded(out, n / 10, width - 1);
        let ghost before = out@;
        out.push('0' as u8 + (n % 10) as u8);
        proof {
            let c = ('0' as u8 + n % 10) as u8 as char;
            let rest = padded((n / 10) as nat, (width - 1) as nat);
            assert(ascii_chars(out@) =~= ascii_chars(before).push(c));
            assert(start + rest.push(c) =~= (start + rest).push(c));
        }
    } else {
        assert(start + padded(n as nat, 0) =~= start);
    }
}

/// The last `width` decimal digits of `n`, with leading zeros.
pub fn padded_string(n: u64, width: u64) -> (res: String)
    ensures
        res@ == padded(n as nat, width as nat),
{
    let mut digits: Vec<u8> = Vec::new();
    push_padded(&mut digits, n, width);
    assert(ascii_chars(Seq::<u8>::empty()) + padded(n as nat, width as nat) =~= padded(
        n as nat,
        width as nat,
    ));
    ascii_string(&digits)
}

/// A number is written with the digits that make it up, without zeros before them.
pub proof fn law_numbers_are_written_in_full(n: nat)
    ensures
        decimal(n).len() > 0,
        forall|i: int| 0 <= i < decimal(n).len() ==> 48 <= #[trigger] decimal(n)[i] as int <= 57,
        digits_value(decimal(n)) == n,
        n > 0 ==> decimal(n)[0] != '0',
    decreases n,
{
    let c = ('0' as u8 + n % 10) as u8 as char;
    if n < 10 {
        assert(decimal(n) =~= Seq::<char>::empty().push(c));
        assert(decimal(n).drop_last() =~= Seq::<char>::empty());
        assert(digits_value(Seq::<char>::empty()) == 0);
    } else {
        law_numbers_are_written_in_full(n / 10);
        assert(decimal(n).drop_last() =~= decimal(n / 10));
    }
}

/// Different numbers are written differently.
pub proof fn law_numbers_are_told_apart(m: nat, n: nat)
    requires
        decimal(m) == decimal(n),
    ensures
        m == n,
{
    law_numbers_are_written_in_full(m);
    law_numbers_are_written_in_full(n);
}

/// Written with a given number of digits, a number that has no more of them is filled up with
/// zeros.
pub proof fn law_padded_numbers_keep_their_value(n: nat, width: nat)
    requires
        n < pow(10, width),
    ensures
        padded(n, width).len() == width,
        forall|i: int| 0 <= i < width ==> 48 <= #[trigger] padded(n, width)[i] as int <= 57,
        digits_value(padded(n, width)) == n,
    decreases width,
{
    reveal(pow);
    if width == 0 {
        assert(padded(n, width) =~= Seq::<char>::empty());
    } else {
        assert(pow(10, width) == 10 * pow(10, (width - 1) as nat));
        law_padded_numbers_keep_their_value(n / 10, (width - 1) as nat);
        assert(padded(n, width).drop_last() =~= padded(n / 10, (width - 1) as nat));
    }
}

/// Of a number that has more digits the last ones are written.
pub proof fn law_padded_numbers_lose_their_front(n: nat, width: nat)
    ensures
        pow(10, width) > 0,
        padded(n, width) == padded((n as int % pow(10, width)) as nat, width),
    decreases width,
{
    reveal(pow);
    lemma_pow_positive(10, width);
    if width > 0 {
        let m = pow(10, (width - 1) as nat);
        lemma_pow_positive(10, (width - 1) as nat);
        assert(pow(10, width) == 10 * m);
        let (q, d) = (n as int / 10, n as int % 10);
        let r = q % m;
        let low = 10 * r + d;
        assert(0 <= r < m) by (nonlinear_arith)
            requires
                r == q % m,
                m > 0,
        ;
        assert(q == m * (q / m) + r) by (nonlinear_arith)
            requires
                r == q % m,
                m > 0,
        ;
        assert(n == (q / m) * (10 * m) + low) by (nonlinear_arith)
            requires
                n == 10 * q + d,
                q == m * (q / m) + r,
                low == 10 * r + d,
        ;
        lemma_fundamental_div_mod_converse(n as int, 10 * m, q / m, low);
        assert(low / 10 == r && low % 10 == d);
        law_padded_numbers_lose_their_front((n / 10) as nat, (width - 1) as nat);
        law_padded_numbers_lose_their_front(r as nat, (width - 1) as nat);
        assert(r % m == r) by (nonlinear_arith)
            requires
                0 <= r < m,
        ;
    }
}

/// ASCII bytes stand for the characters with their numbers.
pub proof fn law_ascii_characters_have_their_numbers(bytes: Seq<u8>, i: int)
    requires
        0 <= i < bytes.len(),
    ensures
        ascii_chars(bytes).len() == bytes.len(),
        ascii_chars(bytes)[i] as int == bytes[i],
{
}

} // verus!
