//! Looking for things in text: characters, words, lines and numbers.

use vstd::prelude::*;
use vstd::string::StringSliceAdditionalSpecFns;
use vstd::utf8::encode_utf8_decode_utf8;

verus! {

/// The characters of `s`.
pub fn chars_of(s: &str) -> (res: Vec<char>)
    ensures
        res@ == s@,
{
    let mut res: Vec<char> = Vec::new();
    for c in it: s.chars()
        invariant
            res@ == it.seq().take(it.index() as int),
            it.seq() == s@,
    {
        res.push(c);
    }
    assert(s@.take(s@.len() as int) =~= s@);
    res
}

/// Whether two texts are the same.
pub fn same_text(a: &str, b: &str) -> (res: bool)
    ensures
        res == (a@ == b@),
{
    let (x, y) = (a.as_bytes(), b.as_bytes());
    proof {
        encode_utf8_decode_utf8(a@);
        encode_utf8_decode_utf8(b@);
    }
    if x.len() != y.len() {
        return false;
    }
    for i in 0..x.len()
        invariant
            x@ == a.spec_bytes(),
            y@ == b.spec_bytes(),
            x@.len() == y@.len(),
            x@.take(i as int) == y@.take(i as int),
    {
        if x[i] != y[i] {
            return false;
        }
        assert(x@.take(i + 1) =~= x@.take(i as int).push(x@[i as int]));
        assert(y@.take(i + 1) =~= y@.take(i as int).push(y@[i as int]));
    }
    assert(x@.take(x@.len() as int) =~= x@);
    assert(y@.take(y@.len() as int) =~= y@);
    true
}

/// `c` with an ASCII capital turned into the small letter.
pub open spec fn lower(c: char) -> char {
    if 'A' <= c && c <= 'Z' {
        (c as u8 + 32) as u8 as char
    } else {
        c
    }
}

/// `s` with ASCII capitals turned into small letters.
pub open spec fn lowered(s: Seq<char>) -> Seq<char> {
    s.map_values(|c: char| lower(c))
}

/// `c` with an ASCII capital turned into the small letter.
fn lower_char(c: char) -> (res: char)
    ensures
        res == lower(c),
{
    if 'A' <= c && c <= 'Z' {
        (c as u8 + 32) as char
    } else {
        c
    }
}

/// `s` with ASCII capitals turned into small letters.
pub fn lowered_chars(s: &Vec<char>) -> (res: Vec<char>)
    ensures
        res@ == lowered(s@),
{
    let mut res: Vec<char> = Vec::new();
    for i in 0..s.len()
        invariant
            res@ == lowered(s@.take(i as int)),
    {
        res.push(lower_char(s[i]));
        assert(s@.take(i + 1) =~= s@.take(i as int).push(s@[i as int]));
        assert(res@ =~= lowered(s@.take(i + 1)));
    }
    assert(s@.take(s@.len() as int) =~= s@);
    res
}

/// `word` stands in `s` from index `i` on.
pub open spec fn stands_at(s: Seq<char>, word: Seq<char>, i: int) -> bool {
    0 <= i && i + word.len() <= s.len() && s.subrange(i, i + word.len()) == word
}

/// `word` stands somewhere in `s`.
pub open spec fn has_word(s: Seq<char>, word: Seq<char>) -> bool {
    exists|i: int| stands_at(s, word, i)
}

/// Whether `word` stands in `s` from index `i` on.
pub fn word_at(s: &Vec<char>, word: &Vec<char>, i: usize) -> (res: bool)
    ensures
        res == stands_at(s@, word@, i as int),
{
    if i > s.len() || s.len() - i < word.len() {
        return false;
    }
    let n = s.len();
    for j in 0..word.len()
        invariant
            n == s@.len(),
            i + word@.len() <= s@.len(),
            forall|k: int| 0 <= k < j ==> s@[i + k] == #[trigger] word@[k],
    {
        if s[i + j] != word[j] {
            assert(s@.subrange(i as int, i + word@.len())[j as int] != word@[j as int]);
            return false;
        }
    }
    assert(s@.subrange(i as int, i + word@.len()) =~= word@);
    true
}

/// Whether `word` stands somewhere in `s`.
pub fn contains_word(s: &Vec<char>, word: &str) -> (res: bool)
    ensures
        res == has_word(s@, word@),
{
    let w = chars_of(word);
    let mut i: usize = 0;
    while i < s.len()
        invariant
            w@ == word@,
            i <= s@.len(),
            forall|k: int| 0 <= k < i ==> !stands_at(s@, word@, k),
        decreases s@.len() - i,
    {
        if word_at(s, &w, i) {
            return true;
        }
        i += 1;
    }
    let last = word_at(s, &w, i);
    proof {
        if !last {
            assert forall|k: int| !stands_at(s@, word@, k) by {
                if 0 <= k < s@.len() {
                    assert(!stands_at(s@, word@, k));
                } else if k == s@.len() {
                    assert(k == i);
                }
            }
        } else {
            assert(stands_at(s@, word@, i as int));
        }
    }
    last
}

/// The first index from `i` on at which `c` stands in `s`, or the length of `s`.
pub open spec fn find_from(s: Seq<char>, c: char, i: int) -> int
    decreases s.len() - i,
{
    if i >= s.len() {
        s.len() as int
    } else if s[i] == c {
        i
    } else {
        find_from(s, c, i + 1)
    }
}

/// The first index from `from` on at which `c` stands in `s`, or the length of `s`.
pub fn find_char(s: &Vec<char>, c: char, from: usize) -> (res: usize)
    requires
        from <= s@.len(),
    ensures
        res == find_from(s@, c, from as int),
        from <= res <= s@.len(),
        res < s@.len() ==> s@[res as int] == c,
{
    let mut i: usize = from;
    while i < s.len() && s[i] != c
        invariant
            from <= i <= s@.len(),
            find_from(s@, c, from as int) == find_from(s@, c, i as int),
        decreases s@.len() - i,
    {
        i += 1;
    }
    i
}

/// `c` is white space in Unicode.
pub open spec fn is_space(c: char) -> bool {
    ||| '\u{9}' <= c && c <= '\u{d}'
    ||| c == ' '
    ||| c == '\u{85}'
    ||| c == '\u{a0}'
    ||| c == '\u{1680}'
    ||| '\u{2000}' <= c && c <= '\u{200a}'
    ||| c == '\u{2028}'
    ||| c == '\u{2029}'
    ||| c == '\u{202f}'
    ||| c == '\u{205f}'
    ||| c == '\u{3000}'
}

/// Whether `c` is white space in Unicode.
pub fn is_whitespace(c: char) -> (res: bool)
    ensures
        res == is_space(c),
{
    ('\u{9}' <= c && c <= '\u{d}') || c == ' ' || c == '\u{85}' || c == '\u{a0}' || c == '\u{1680}'
        || ('\u{2000}' <= c && c <= '\u{200a}') || c == '\u{2028}' || c == '\u{2029}' || c == '\u{202f}'
        || c == '\u{205f}' || c == '\u{3000}'
}

/// `s` without white space at its start.
pub open spec fn trim_start(s: Seq<char>) -> Seq<char>
    decreases s.len(),
{
    if s.len() > 0 && is_space(s[0]) {
        trim_start(s.drop_first())
    } else {
        s
    }
}

/// `s` without white space at its end.
pub open spec fn trim_end(s: Seq<char>) -> Seq<char>
    decreases s.len(),
{
    if s.len() > 0 && is_space(s.last()) {
        trim_end(s.drop_last())
    } else {
        s
    }
}

/// The number that decimal digits make up.
pub open spec fn digits_value(s: Seq<char>) -> int
    decreases s.len(),
{
    if s.len() == 0 {
        0
    } else {
        digits_value(s.drop_last()) * 10 + (s.last() as int - '0' as int)
    }
}

/// `s` is a row of one or more decimal digits.
pub open spec fn is_digits(s: Seq<char>) -> bool {
    s.len() > 0 && forall|i: int| 0 <= i < s.len() ==> '0' <= #[trigger] s[i] && s[i] <= '9'
}

/// The number that `s` is, as a `usize`: digits, with a plus sign before them or not.
pub open spec fn parsed_number(s: Seq<char>) -> Option<int> {
    let digits = if s.len() > 0 && s[0] == '+' {
        s.drop_first()
    } else {
        s
    };
    if is_digits(digits) && digits_value(digits) <= usize::MAX {
        Some(digits_value(digits))
    } else {
        None
    }
}

/// The part of `s[from .. to]` that is left without white space at its ends.
fn trim_bounds(s: &Vec<char>, from: usize, to: usize) -> (res: (usize, usize))
    requires
        from <= to <= s@.len(),
    ensures
        from <= res.0 <= res.1 <= to,
        trim_end(trim_start(s@.subrange(from as int, to as int))) == s@.subrange(
            res.0 as int,
            res.1 as int,
        ),
{
    let ghost whole = trim_start(s@.subrange(from as int, to as int));
    let mut lo: usize = from;
    while lo < to && is_whitespace(s[lo])
        invariant
            from <= lo <= to <= s@.len(),
            whole == trim_start(s@.subrange(lo as int, to as int)),
        decreases to - lo,
    {
        assert(s@.subrange(lo as int, to as int).drop_first() =~= s@.subrange(lo + 1, to as int));
        lo += 1;
    }
    assert(whole == s@.subrange(lo as int, to as int));
    let mut hi: usize = to;
    while lo < hi && is_whitespace(s[hi - 1])
        invariant
            from <= lo <= hi <= to <= s@.len(),
            trim_end(whole) == trim_end(s@.subrange(lo as int, hi as int)),
        decreases hi - lo,
    {
        assert(s@.subrange(lo as int, hi as int).drop_last() =~= s@.subrange(lo as int, hi - 1));
        hi -= 1;
    }
    (lo, hi)
}

/// More digits make no smaller number.
proof fn lemma_digits_grow(s: Seq<char>, k: int)
    requires
        is_digits(s),
        0 <= k <= s.len(),
    ensures
        0 <= digits_value(s.take(k)) <= digits_value(s),
    decreases s.len(),
{
    if k == s.len() {
        assert(s.take(k) =~= s);
        if k > 1 {
            lemma_digits_grow(s.drop_last(), 0);
            assert(s.drop_last().take(0) =~= Seq::<char>::empty());
        } else {
            assert(s.drop_last() =~= Seq::<char>::empty());
        }
    } else if s.len() == 1 {
        assert(s.take(k) =~= Seq::<char>::empty());
        assert(s.drop_last() =~= Seq::<char>::empty());
    } else {
        lemma_digits_grow(s.drop_last(), k);
        assert(s.drop_last().take(k) =~= s.take(k));
    }
}

/// The number that `s[lo .. hi]` is, as a `usize`.
fn parse_digits(s: &Vec<char>, lo: usize, hi: usize) -> (res: Option<usize>)
    requires
        lo <= hi <= s@.len(),
    ensures
        ({
            let d = s@.subrange(lo as int, hi as int);
            match res {
                Some(v) => is_digits(d) && digits_value(d) == v,
                None => !(is_digits(d) && digits_value(d) <= usize::MAX),
            }
        }),
{
    let ghost d = s@.subrange(lo as int, hi as int);
    if lo == hi {
        return None;
    }
    let mut v: usize = 0;
    assert(d.take(0) =~= Seq::<char>::empty());
    for i in lo..hi
        invariant
            lo < hi <= s@.len(),
            d == s@.subrange(lo as int, hi as int),
            forall|k: int| 0 <= k < i - lo ==> '0' <= #[trigger] d[k] && d[k] <= '9',
            v == digits_value(d.take(i - lo)),
    {
        let c = s[i];
        assert(c == d[i - lo]);
        if c < '0' || '9' < c {
            return None;
        }
        let digit = c as u8 - '0' as u8;
        proof {
            let upto = d.take(i - lo + 1);
            assert(upto.drop_last() =~= d.take(i - lo));
            assert(upto.last() == c);
            if is_digits(d) {
                lemma_digits_grow(d, i - lo + 1);
            }
        }
        if v > usize::MAX / 10 {
            return None;
        }
        let tens = v * 10;
        if tens > usize::MAX - digit as usize {
            return None;
        }
        v = tens + digit as usize;
    }
    assert(d.take(hi - lo) =~= d);
    Some(v)
}

/// The number that `s[from .. to]` is, as a `usize`, apart from white space around it.
pub fn parse_trimmed(s: &Vec<char>, from: usize, to: usize) -> (res: Option<usize>)
    requires
        from <= to <= s@.len(),
    ensures
        ({
            let number = parsed_number(trim_end(trim_start(s@.subrange(from as int, to as int))));
            match res {
                Some(v) => number == Some(v as int),
                None => number is None,
            }
        }),
{
    let (lo, hi) = trim_bounds(s, from, to);
    let ghost t = s@.subrange(lo as int, hi as int);
    if lo < hi && s[lo] == '+' {
        assert(t.drop_first() =~= s@.subrange(lo + 1, hi as int));
        parse_digits(s, lo + 1, hi)
    } else {
        parse_digits(s, lo, hi)
    }
}

/// The twenty-six capitals become the small letters in the same order, and every other character
/// stays as it is.
pub proof fn law_capitals_become_small(s: Seq<char>, i: int)
    requires
        0 <= i < s.len(),
    ensures
        lowered(s).len() == s.len(),
        lowered(s)[i] as int == (if 65 <= s[i] as int <= 90 {
            s[i] as int + 32
        } else {
            s[i] as int
        }),
{
}

/// Text without capitals stays as it is.
pub proof fn law_small_letters_stay(s: Seq<char>)
    requires
        forall|i: int| 0 <= i < s.len() ==> !(65 <= #[trigger] s[i] as int <= 90),
    ensures
        lowered(s) == s,
{
    assert(lowered(s) =~= s);
}

/// A word is found wherever it stands between other text.
pub proof fn law_word_is_found_in_text(before: Seq<char>, word: Seq<char>, behind: Seq<char>)
    ensures
        has_word(before + word + behind, word),
        stands_at(before + word + behind, word, before.len() as int),
{
    let s = before + word + behind;
    let i = before.len() as int;
    assert(s.subrange(i, i + word.len()) =~= word);
    assert(stands_at(s, word, i));
}

/// A word that is found stands between some text before it and some text behind it.
pub proof fn law_found_word_stands_in_text(s: Seq<char>, word: Seq<char>) -> (i: int)
    requires
        has_word(s, word),
    ensures
        0 <= i <= s.len() - word.len(),
        s == s.take(i) + word + s.skip(i + word.len()),
{
    let i = choose|i: int| stands_at(s, word, i);
    assert(s =~= s.take(i) + s.subrange(i, i + word.len()) + s.skip(i + word.len()));
    i
}

/// A search stops at the first character that is looked for, or else at the end.
pub proof fn law_search_stops_at_the_first(s: Seq<char>, c: char, i: int, k: int)
    requires
        0 <= i <= k <= s.len(),
        forall|j: int| i <= j < k ==> #[trigger] s[j] != c,
        k < s.len() ==> s[k] == c,
    ensures
        find_from(s, c, i) == k,
    decreases k - i,
{
    if i < k {
        law_search_stops_at_the_first(s, c, i + 1, k);
    }
}

/// White space is taken away at both ends, and nothing else.
pub proof fn law_white_space_is_taken_away(before: Seq<char>, core: Seq<char>, behind: Seq<char>)
    requires
        forall|i: int| 0 <= i < before.len() ==> is_space(#[trigger] before[i]),
        forall|i: int| 0 <= i < behind.len() ==> is_space(#[trigger] behind[i]),
        core.len() > 0,
        !is_space(core[0]),
        !is_space(core.last()),
    ensures
        trim_end(trim_start(before + core + behind)) == core,
    decreases before.len() + behind.len(),
{
    let s = before + core + behind;
    if before.len() > 0 {
        assert(s.drop_first() =~= before.drop_first() + core + behind);
        assert forall|i: int| 0 <= i < before.len() - 1 implies is_space(
            #[trigger] before.drop_first()[i],
        ) by {
            assert(is_space(before[i + 1]));
        }
        assert(s[0] == before[0]);
        law_white_space_is_taken_away(before.drop_first(), core, behind);
    } else {
        assert(s =~= core + behind);
        assert(trim_start(s) == s);
        if behind.len() > 0 {
            assert(s.last() == behind.last());
            assert(s.drop_last() =~= core + behind.drop_last());
            assert forall|i: int| 0 <= i < behind.len() - 1 implies is_space(
                #[trigger] behind.drop_last()[i],
            ) by {
                assert(is_space(behind[i]));
            }
            assert(before + core + behind.drop_last() =~= s.drop_last());
            law_white_space_is_taken_away(before, core, behind.drop_last());
            assert(trim_start(s.drop_last()) == s.drop_last());
        } else {
            assert(s =~= core);
        }
    }
}

/// Each further digit counts once and what stands before it ten times.
pub proof fn law_digits_count_by_ten(s: Seq<char>, c: char)
    ensures
        digits_value(Seq::<char>::empty()) == 0,
        digits_value(s.push(c)) == 10 * digits_value(s) + (c as int - 48),
{
    assert(s.push(c).drop_last() =~= s);
}

/// A row of digits is read as the number that it makes up, with a plus sign before it or not, if
/// the machine has that number.
pub proof fn law_digits_are_read_as_a_number(s: Seq<char>)
    requires
        s.len() > 0,
        forall|i: int| 0 <= i < s.len() ==> 48 <= #[trigger] s[i] as int <= 57,
    ensures
        digits_value(s) <= usize::MAX ==> parsed_number(s) == Some(digits_value(s)),
        digits_value(s) <= usize::MAX ==> parsed_number(seq!['+'] + s) == Some(digits_value(s)),
        digits_value(s) > usize::MAX ==> parsed_number(s) is None,
        digits_value(s) > usize::MAX ==> parsed_number(seq!['+'] + s) is None,
{
    assert((seq!['+'] + s).drop_first() =~= s);
}

/// What holds any other character than digits behind its first is no number, and neither is
/// nothing, nor a plus sign alone.
pub proof fn law_other_text_is_no_number(s: Seq<char>, i: int)
    requires
        s.len() == 0 || s == seq!['+'] || (0 <= i < s.len() && !(48 <= s[i] as int <= 57) && (i > 0
            || s[i] != '+')),
    ensures
        parsed_number(s) is None,
{
    if 0 < i < s.len() && s[0] == '+' {
        assert(s.drop_first()[i - 1] == s[i]);
    }
}

/// A word stands at a place if its characters stand there one after the other.
pub proof fn law_words_stand_by_their_characters(s: Seq<char>, word: Seq<char>, i: int)
    ensures
        stands_at(s, word, i) <==> 0 <= i && i + word.len() <= s.len() && (forall|j: int|
            0 <= j < word.len() ==> #[trigger] word[j] == s[i + j]),
{
    if stands_at(s, word, i) {
        assert forall|j: int| 0 <= j < word.len() implies #[trigger] word[j] == s[i + j] by {
            assert(s.subrange(i, i + word.len())[j] == s[i + j]);
        }
    } else if 0 <= i && i + word.len() <= s.len() && (forall|j: int|
        0 <= j < word.len() ==> #[trigger] word[j] == s[i + j]) {
        assert(s.subrange(i, i + word.len()) =~= word);
    }
}

/// Of nothing but white space nothing is left.
pub proof fn law_white_space_alone_is_nothing(s: Seq<char>)
    requires
        forall|i: int| 0 <= i < s.len() ==> is_space(#[trigger] s[i]),
    ensures
        trim_end(trim_start(s)) == Seq::<char>::empty(),
    decreases s.len(),
{
    if s.len() > 0 {
        assert forall|i: int| 0 <= i < s.len() - 1 implies is_space(
            #[trigger] s.drop_first()[i],
        ) by {
            assert(is_space(s[i + 1]));
        }
        law_white_space_alone_is_nothing(s.drop_first());
    } else {
        assert(s =~= Seq::<char>::empty());
    }
}

} // verus!
