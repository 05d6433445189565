//! Strings as sequences of characters: building, lowering, trimming and splitting them.

use vstd::prelude::*;
use vstd::utf8;

verus! {

/// The characters of a string, if there is a string.
pub open spec fn optional_view(s: Option<String>) -> Option<Seq<char>> {
    match s {
        Some(s) => Some(s@),
        None => None,
    }
}

/// `String::push` appends one character at the end.
pub assume_specification[ String::push ](s: &mut String, c: char)
    ensures
        final(s)@ == old(s)@.push(c),
;

/// The error of `String::from_utf8`.
#[verifier::external_type_specification]
#[verifier::external_body]
pub struct ExFromUtf8Error(std::string::FromUtf8Error);

/// `String::from_utf8` succeeds exactly on valid UTF-8, with the text that the bytes encode.
pub assume_specification[ String::from_utf8 ](vec: Vec<u8>) -> (r: Result<
    String,
    std::string::FromUtf8Error,
>)
    ensures
        r is Ok <==> utf8::valid_utf8(vec@),
        r matches Ok(s) ==> s@ == utf8::decode_utf8(vec@),
;

/// The ASCII lower case form of a character: only `A` to `Z` change.
pub open spec fn lower(c: char) -> char {
    if 'A' <= c && c <= 'Z' {
        ((c as u8 + 32) as u8) as char
    } else {
        c
    }
}

/// A text with every ASCII letter in lower case.
pub open spec fn lowercase(s: Seq<char>) -> Seq<char> {
    s.map_values(|c: char| lower(c))
}

/// Characters with the Unicode property `White_Space`.
pub open spec fn is_space(c: char) -> bool {
    ||| '\u{9}' <= c <= '\u{d}'
    ||| c == ' '
    ||| c == '\u{85}'
    ||| c == '\u{a0}'
    ||| c == '\u{1680}'
    ||| '\u{2000}' <= c <= '\u{200a}'
    ||| c == '\u{2028}'
    ||| c == '\u{2029}'
    ||| c == '\u{202f}'
    ||| c == '\u{205f}'
    ||| c == '\u{3000}'
}

/// A text without the white space it begins with.
pub open spec fn trim_start(s: Seq<char>) -> Seq<char>
    decreases s.len(),
{
    if s.len() > 0 && is_space(s.first()) {
        trim_start(s.drop_first())
    } else {
        s
    }
}

/// A text without the white space it ends with.
pub open spec fn trim_end(s: Seq<char>) -> Seq<char>
    decreases s.len(),
{
    if s.len() > 0 && is_space(s.last()) {
        trim_end(s.drop_last())
    } else {
        s
    }
}

/// A text without the white space at its two ends.
pub open spec fn trim(s: Seq<char>) -> Seq<char> {
    trim_end(trim_start(s))
}

/// The pieces of `s` between the places where `sep` stands; one more than there are such places.
pub open spec fn split<T>(s: Seq<T>, sep: T) -> Seq<Seq<T>>
    decreases s.len(),
{
    if s.len() == 0 {
        seq![Seq::empty()]
    } else {
        let before = split(s.drop_last(), sep);
        if s.last() == sep {
            before.push(Seq::empty())
        } else {
            before.drop_last().push(before.last().push(s.last()))
        }
    }
}

/// The pieces one after the other, with `sep` between neighbours.
pub open spec fn join<T>(pieces: Seq<Seq<T>>, sep: T) -> Seq<T>
    decreases pieces.len(),
{
    if pieces.len() == 0 {
        Seq::empty()
    } else if pieces.len() == 1 {
        pieces[0]
    } else {
        join(pieces.drop_last(), sep).push(sep) + pieces.last()
    }
}

/// Splitting yields at least one piece, and none of them holds the separator.
pub proof fn lemma_split_pieces<T>(s: Seq<T>, sep: T)
    ensures
        split(s, sep).len() >= 1,
        forall|i: int| 0 <= i < split(s, sep).len() ==> !#[trigger] split(s, sep)[i].contains(sep),
    decreases s.len(),
{
    if s.len() > 0 {
        let before = split(s.drop_last(), sep);
        lemma_split_pieces(s.drop_last(), sep);
        assert(!before.last().contains(sep));
        if s.last() != sep {
            let grown = before.last().push(s.last());
            assert forall|k: int| 0 <= k < grown.len() implies grown[k] != sep by {
                if k < before.last().len() {
                    assert(before.last()[k] == grown[k]);
                }
            }
        }
        assert forall|i: int| 0 <= i < split(s, sep).len() implies !#[trigger] split(
            s,
            sep,
        )[i].contains(sep) by {
            if i < before.len() - 1 {
                assert(split(s, sep)[i] == before[i]);
            }
        }
    }
}

/// Joining the pieces of a text gives the text back.
pub proof fn lemma_join_split<T>(s: Seq<T>, sep: T)
    ensures
        join(split(s, sep), sep) == s,
    decreases s.len(),
{
    if s.len() > 0 {
        let before = split(s.drop_last(), sep);
        lemma_join_split(s.drop_last(), sep);
        lemma_split_pieces(s.drop_last(), sep);
        let pieces = split(s, sep);
        if s.last() == sep {
            assert(pieces.drop_last() == before);
            assert(join(pieces, sep) == s);
        } else {
            assert(pieces.drop_last() == before.drop_last());
            assert(join(pieces, sep) == join(before, sep).push(s.last()));
            assert(join(pieces, sep) == s);
        }
    }
}

/// A text without the separator is its own only piece.
pub proof fn lemma_split_single<T>(s: Seq<T>, sep: T)
    requires
        !s.contains(sep),
    ensures
        split(s, sep) == seq![s],
    decreases s.len(),
{
    if s.len() > 0 {
        assert forall|k: int| 0 <= k < s.drop_last().len() implies s.drop_last()[k] != sep by {
            assert(s[k] != sep);
        }
        lemma_split_single(s.drop_last(), sep);
        assert(s.last() != sep);
        assert(s.drop_last().push(s.last()) == s);
        assert(split(s, sep) == seq![s]);
    } else {
        assert(s == Seq::<T>::empty());
    }
}

/// The pieces of two texts with a separator between them are the pieces of the first, then those of
/// the second.
pub proof fn lemma_split_concat<T>(a: Seq<T>, sep: T, b: Seq<T>)
    ensures
        split(a.push(sep) + b, sep) == split(a, sep) + split(b, sep),
    decreases b.len(),
{
    let s = a.push(sep) + b;
    if b.len() == 0 {
        assert(s == a.push(sep));
        assert(s.drop_last() == a);
        assert(split(s, sep) == split(a, sep) + split(b, sep));
    } else {
        lemma_split_concat(a, sep, b.drop_last());
        lemma_split_pieces(b.drop_last(), sep);
        assert(s.drop_last() == a.push(sep) + b.drop_last());
        assert(split(s, sep) == split(a, sep) + split(b, sep));
    }
}

/// Splitting joined pieces gives the pieces back, where none of them holds the separator.
pub proof fn lemma_split_join<T>(pieces: Seq<Seq<T>>, sep: T)
    requires
        pieces.len() >= 1,
        forall|i: int| 0 <= i < pieces.len() ==> !#[trigger] pieces[i].contains(sep),
    ensures
        split(join(pieces, sep), sep) == pieces,
    decreases pieces.len(),
{
    lemma_split_single(pieces.last(), sep);
    if pieces.len() == 1 {
        assert(pieces == seq![pieces[0]]);
    } else {
        let init = pieces.drop_last();
        assert forall|i: int| 0 <= i < init.len() implies !#[trigger] init[i].contains(sep) by {
            assert(init[i] == pieces[i]);
        }
        lemma_split_join(init, sep);
        lemma_split_concat(join(init, sep), sep, pieces.last());
        assert(init + seq![pieces.last()] == pieces);
    }
}

/// The decimal digit, or lower case hexadecimal digit, for a value below sixteen.
pub open spec fn digit(d: nat) -> char {
    if d < 10 {
        ((48 + d) as u8) as char
    } else {
        ((87 + d) as u8) as char
    }
}

/// A number in the given base, without leading zeros.
pub open spec fn numeral(n: nat, base: nat) -> Seq<char>
    recommends
        2 <= base <= 16,
    decreases n,
{
    if n < base || base < 2 {
        seq![digit(n)]
    } else {
        proof {
            vstd::arithmetic::div_mod::lemma_div_decreases(n as int, base as int);
        }
        numeral(n / base, base).push(digit(n % base))
    }
}

/// A number in decimal.
pub open spec fn decimal(n: nat) -> Seq<char> {
    numeral(n, 10)
}

/// A number in lower case hexadecimal.
pub open spec fn hexadecimal(n: nat) -> Seq<char> {
    numeral(n, 16)
}

/// What neither the pieces nor the separator holds, the joined pieces do not hold.
pub proof fn lemma_join_without<T>(pieces: Seq<Seq<T>>, sep: T, x: T)
    requires
        sep != x,
        forall|i: int| 0 <= i < pieces.len() ==> !#[trigger] pieces[i].contains(x),
    ensures
        !join(pieces, sep).contains(x),
    decreases pieces.len(),
{
    if pieces.len() > 1 {
        let init = pieces.drop_last();
        assert forall|i: int| 0 <= i < init.len() implies !#[trigger] init[i].contains(x) by {
            assert(init[i] == pieces[i]);
        }
        lemma_join_without(init, sep, x);
        let before = join(init, sep);
        assert(!pieces[pieces.len() - 1].contains(x));
        let all = join(pieces, sep);
        assert forall|k: int| 0 <= k < all.len() implies all[k] != x by {
            if k < before.len() {
                assert(all[k] == before[k]);
            } else if k > before.len() {
                assert(all[k] == pieces.last()[k - before.len() - 1]);
            }
        }
    } else if pieces.len() == 1 {
        assert(!pieces[0].contains(x));
    }
}

/// Whether a character is the digit for no value below sixteen.
pub open spec fn is_no_digit(c: char) -> bool {
    !('0' <= c <= '9') && !('a' <= c <= 'f')
}

/// The digit for a value below sixteen, as a number.
proof fn lemma_digit(d: nat)
    requires
        d < 16,
    ensures
        digit(d) as int == if d < 10 {
            48 + d
        } else {
            87 + d
        },
        !is_no_digit(digit(d)),
{
}

/// The last digit of a number, what stands before it, and whether it is the only one.
proof fn lemma_numeral_end(n: nat, base: nat)
    requires
        2 <= base <= 16,
    ensures
        numeral(n, base).len() > 0,
        n % base < 16,
        numeral(n, base).last() == digit(n % base),
        n < base ==> numeral(n, base) == seq![digit(n)],
        n >= base ==> numeral(n, base).len() > 1 && numeral(n, base).drop_last() == numeral(
            n / base,
            base,
        ) && n / base < n,
    decreases n,
{
    vstd::arithmetic::div_mod::lemma_mod_bound(n as int, base as int);
    if n >= base {
        vstd::arithmetic::div_mod::lemma_div_decreases(n as int, base as int);
        lemma_numeral_end(n / base, base);
        assert(numeral(n, base).drop_last() == numeral(n / base, base));
    } else {
        vstd::arithmetic::div_mod::lemma_small_mod(n, base);
    }
}

/// A number has digits only.
pub proof fn lemma_numeral_without(n: nat, base: nat, c: char)
    requires
        2 <= base <= 16,
        is_no_digit(c),
    ensures
        !numeral(n, base).contains(c),
    decreases n,
{
    let all = numeral(n, base);
    lemma_numeral_end(n, base);
    lemma_digit(n % base);
    if n >= base {
        lemma_numeral_without(n / base, base, c);
    }
    assert forall|k: int| 0 <= k < all.len() implies all[k] != c by {
        if k < all.len() - 1 {
            assert(all.drop_last()[k] == all[k]);
        }
    }
}

/// No two numbers are written the same.
pub proof fn lemma_numeral_unique(a: nat, b: nat, base: nat)
    requires
        2 <= base <= 16,
        numeral(a, base) == numeral(b, base),
    ensures
        a == b,
    decreases a,
{
    lemma_numeral_end(a, base);
    lemma_numeral_end(b, base);
    lemma_digit(a % base);
    lemma_digit(b % base);
    assert(a % base == b % base);
    vstd::arithmetic::div_mod::lemma_fundamental_div_mod(a as int, base as int);
    vstd::arithmetic::div_mod::lemma_fundamental_div_mod(b as int, base as int);
    if a >= base {
        assert(b >= base);
        lemma_numeral_unique(a / base, b / base, base);
    } else {
        assert(b < base);
        lemma_digit(a);
        lemma_digit(b);
        assert(numeral(a, base)[0] == digit(a));
        assert(numeral(b, base)[0] == digit(b));
    }
}

/// A number is written with at least one digit.
pub proof fn lemma_numeral_nonempty(n: nat, base: nat)
    requires
        2 <= base <= 16,
    ensures
        numeral(n, base).len() > 0,
{
    lemma_numeral_end(n, base);
}

/// The characters of a string, in order.
pub fn chars_of(s: &str) -> (chars: Vec<char>)
    ensures
        chars@ == s@,
{
    let mut chars: Vec<char> = Vec::new();
    for c in it: s.chars()
        invariant
            chars@ == it.seq().take(it.index() as int),
            it.seq() == s@,
    {
        chars.push(c);
    }
    chars
}

/// The string made of the characters from `from` up to, not including, `to`.
pub fn string_of(chars: &[char], from: usize, to: usize) -> (s: String)
    requires
        from <= to <= chars@.len(),
    ensures
        s@ == chars@.subrange(from as int, to as int),
{
    let mut s = String::new();
    let mut i: usize = from;
    while i < to
        invariant
            from <= i <= to <= chars@.len(),
            s@ == chars@.subrange(from as int, i as int),
        decreases to - i,
    {
        s.push(chars[i]);
        i += 1;
    }
    s
}

/// Lowers one ASCII letter.
pub fn lower_char(c: char) -> (r: char)
    ensures
        r == lower(c),
{
    if 'A' <= c && c <= 'Z' {
        (c as u8 + 32) as char
    } else {
        c
    }
}

/// Whether a character has the Unicode property `White_Space`.
pub fn is_space_char(c: char) -> (r: bool)
    ensures
        r == is_space(c),
{
    ('\u{9}' <= c && c <= '\u{d}') || c == ' ' || c == '\u{85}' || c == '\u{a0}' || c == '\u{1680}'
        || ('\u{2000}' <= c && c <= '\u{200a}') || c == '\u{2028}' || c == '\u{2029}' || c
        == '\u{202f}' || c == '\u{205f}' || c == '\u{3000}'
}

/// Lowers the ASCII letters of a text.
pub fn to_lowercase(chars: &[char]) -> (r: Vec<char>)
    ensures
        r@ == lowercase(chars@),
{
    let mut r: Vec<char> = Vec::new();
    let mut i: usize = 0;
    while i < chars.len()
        invariant
            i <= chars@.len(),
            r@ == lowercase(chars@.take(i as int)),
        decreases chars@.len() - i,
    {
        r.push(lower_char(chars[i]));
        i += 1;
        assert(lowercase(chars@.take(i as int)) == lowercase(chars@.take(i - 1)).push(
            lower(chars@[i - 1]),
        ));
    }
    assert(chars@.take(i as int) == chars@);
    r
}

/// Where the text without the white space at its two ends begins and stops.
pub fn trim_bounds(chars: &[char]) -> (r: (usize, usize))
    ensures
        r.0 <= r.1 <= chars@.len(),
        chars@.subrange(r.0 as int, r.1 as int) == trim(chars@),
{
    let mut from: usize = 0;
    assert(chars@.skip(0) == chars@);
    while from < chars.len() && is_space_char(chars[from])
        invariant
            from <= chars@.len(),
            trim_start(chars@.skip(from as int)) == trim_start(chars@),
        decreases chars@.len() - from,
    {
        assert(chars@.skip(from as int).drop_first() == chars@.skip(from + 1));
        from += 1;
    }
    let mut to: usize = chars.len();
    assert(chars@.subrange(from as int, to as int) == chars@.skip(from as int));
    while to > from && is_space_char(chars[to - 1])
        invariant
            from <= to <= chars@.len(),
            trim_end(chars@.subrange(from as int, to as int)) == trim(chars@),
        decreases to,
    {
        assert(chars@.subrange(from as int, to as int).drop_last() == chars@.subrange(
            from as int,
            to - 1,
        ));
        to -= 1;
    }
    (from, to)
}

/// Where each piece between the separators begins and stops.
pub fn split_bounds(chars: &[char], sep: char) -> (r: Vec<(usize, usize)>)
    ensures
        r@.len() == split(chars@, sep).len(),
        forall|k: int|
            0 <= k < r@.len() ==> {
                &&& (#[trigger] r@[k]).0 <= r@[k].1 <= chars@.len()
                &&& chars@.subrange(r@[k].0 as int, r@[k].1 as int) == split(chars@, sep)[k]
            },
{
    let mut r: Vec<(usize, usize)> = Vec::new();
    let mut from: usize = 0;
    let mut i: usize = 0;
    while i < chars.len()
        invariant
            from <= i <= chars@.len(),
            split(chars@.take(i as int), sep).len() == r@.len() + 1,
            split(chars@.take(i as int), sep).last() == chars@.subrange(from as int, i as int),
            forall|k: int|
                0 <= k < r@.len() ==> {
                    &&& (#[trigger] r@[k]).0 <= r@[k].1 <= chars@.len()
                    &&& chars@.subrange(r@[k].0 as int, r@[k].1 as int) == split(
                        chars@.take(i as int),
                        sep,
                    )[k]
                },
        decreases chars@.len() - i,
    {
        assert(chars@.take(i + 1).drop_last() == chars@.take(i as int));
        let ghost before = split(chars@.take(i as int), sep);
        let ghost held = r@;
        if chars[i] == sep {
            r.push((from, i));
            from = i + 1;
        } else {
            assert(chars@.subrange(from as int, i + 1) == before.last().push(chars@[i as int]));
        }
        i += 1;
        assert forall|k: int| 0 <= k < r@.len() implies {
            &&& (#[trigger] r@[k]).0 <= r@[k].1 <= chars@.len()
            &&& chars@.subrange(r@[k].0 as int, r@[k].1 as int) == split(
                chars@.take(i as int),
                sep,
            )[k]
        } by {
            if k < held.len() {
                assert(r@[k] == held[k]);
            }
        }
    }
    assert(chars@.take(i as int) == chars@);
    r.push((from, i));
    r
}

/// The digit for a value below sixteen.
fn digit_char(d: u8) -> (c: char)
    requires
        d < 16,
    ensures
        c == digit(d as nat),
{
    if d < 10 {
        (48 + d) as char
    } else {
        (87 + d) as char
    }
}

/// Appends a number in the given base.
fn push_numeral(out: &mut String, n: u32, base: u32)
    requires
        2 <= base <= 16,
    ensures
        final(out)@ == old(out)@ + numeral(n as nat, base as nat),
    decreases n,
{
    if n >= base {
        proof {
            vstd::arithmetic::div_mod::lemma_div_decreases(n as int, base as int);
        }
        push_numeral(out, n / base, base);
    }
    let d: u8 = (n % base) as u8;
    out.push(digit_char(d));
    proof {
        if n < base {
            vstd::arithmetic::div_mod::lemma_small_mod(n as nat, base as nat);
        }
    }
}

/// Appends a number in decimal.
pub fn push_decimal(out: &mut String, n: u32)
    ensures
        final(out)@ == old(out)@ + decimal(n as nat),
{
    push_numeral(out, n, 10)
}

/// Appends a number in lower case hexadecimal.
pub fn push_hexadecimal(out: &mut String, n: u32)
    ensures
        final(out)@ == old(out)@ + hexadecimal(n as nat),
{
    push_numeral(out, n, 16)
}

/// Only the letters from `A` to `Z` are changed, each by the distance between the two alphabets.
pub proof fn law_lower(c: char)
    ensures
        65 <= c as int <= 90 ==> lower(c) as int == c as int + 32,
        !(65 <= c as int <= 90) ==> lower(c) == c,
{
}

/// Lowering works letter by letter.
pub proof fn law_lowercase(s: Seq<char>)
    ensures
        lowercase(s).len() == s.len(),
        forall|i: int|
            0 <= i < s.len() ==> {
                &&& 65 <= (#[trigger] s[i]) as int <= 90 ==> lowercase(s)[i] as int == s[i] as int
                    + 32
                &&& !(65 <= s[i] as int <= 90) ==> lowercase(s)[i] == s[i]
            },
{
    assert forall|i: int| 0 <= i < s.len() implies {
        &&& 65 <= (#[trigger] s[i]) as int <= 90 ==> lowercase(s)[i] as int == s[i] as int + 32
        &&& !(65 <= s[i] as int <= 90) ==> lowercase(s)[i] == s[i]
    } by {
        law_lower(s[i]);
    }
}

/// White space is what Unicode lists as such, and nothing else.
pub proof fn law_space(c: char)
    ensures
        is_space(c) <==> {
            ||| 9 <= c as int <= 13
            ||| c as int == 32
            ||| c as int == 133
            ||| c as int == 160
            ||| c as int == 5760
            ||| 8192 <= c as int <= 8202
            ||| c as int == 8232
            ||| c as int == 8233
            ||| c as int == 8239
            ||| c as int == 8287
            ||| c as int == 12288
        },
{
}

/// Where a text begins after the white space before it.
proof fn lemma_trim_start(s: Seq<char>) -> (i: int)
    ensures
        0 <= i <= s.len(),
        trim_start(s) == s.skip(i),
        forall|k: int| 0 <= k < i ==> is_space(#[trigger] s[k]),
        i < s.len() ==> !is_space(s[i]),
    decreases s.len(),
{
    if s.len() > 0 && is_space(s.first()) {
        let i = lemma_trim_start(s.drop_first());
        assert(s.drop_first().skip(i) == s.skip(i + 1));
        assert forall|k: int| 0 <= k < i + 1 implies is_space(#[trigger] s[k]) by {
            if k > 0 {
                assert(s.drop_first()[k - 1] == s[k]);
            }
        }
        i + 1
    } else {
        assert(s.skip(0) == s);
        0
    }
}

/// Where a text stops before the white space behind it.
proof fn lemma_trim_end(s: Seq<char>) -> (j: int)
    ensures
        0 <= j <= s.len(),
        trim_end(s) == s.take(j),
        forall|k: int| j <= k < s.len() ==> is_space(#[trigger] s[k]),
        j > 0 ==> !is_space(s[j - 1]),
    decreases s.len(),
{
    if s.len() > 0 && is_space(s.last()) {
        let j = lemma_trim_end(s.drop_last());
        assert(s.drop_last().take(j) == s.take(j));
        assert forall|k: int| j <= k < s.len() implies is_space(#[trigger] s[k]) by {
            if k < s.len() - 1 {
                assert(s.drop_last()[k] == s[k]);
            }
        }
        j
    } else {
        assert(s.take(s.len() as int) == s);
        s.len() as int
    }
}

/// Trimming takes away white space at both ends, all of it, and nothing else.
pub proof fn law_trim(s: Seq<char>)
    ensures
        exists|i: int, j: int|
            {
                &&& 0 <= i <= j <= s.len()
                &&& trim(s) == #[trigger] s.subrange(i, j)
                &&& forall|k: int| 0 <= k < i || j <= k < s.len() ==> is_space(#[trigger] s[k])
                &&& i < j ==> !is_space(s[i]) && !is_space(s[j - 1])
            },
{
    let i = lemma_trim_start(s);
    let rest = s.skip(i);
    let n = lemma_trim_end(rest);
    let j = i + n;
    assert(rest.take(n) == s.subrange(i, j));
    assert forall|k: int| 0 <= k < i || j <= k < s.len() implies is_space(#[trigger] s[k]) by {
        if k >= j {
            assert(rest[k - i] == s[k]);
        }
    }
    if i < j {
        assert(rest[n - 1] == s[j - 1]);
    }
}

/// Joining puts the separator between neighbours and nowhere else.
pub proof fn law_join<T>(pieces: Seq<Seq<T>>, last: Seq<T>, sep: T)
    ensures
        join(Seq::<Seq<T>>::empty(), sep) == Seq::<T>::empty(),
        join(seq![last], sep) == last,
        pieces.len() > 0 ==> join(pieces.push(last), sep) == join(pieces, sep) + seq![sep] + last,
{
    assert(pieces.push(last).drop_last() == pieces);
    assert(join(pieces, sep).push(sep) == join(pieces, sep) + seq![sep]);
}

/// Cutting at a separator gives the one row of pieces without it that joins to the text.
pub proof fn law_split<T>(s: Seq<T>, sep: T, pieces: Seq<Seq<T>>)
    requires
        pieces.len() > 0,
        forall|i: int| 0 <= i < pieces.len() ==> !#[trigger] pieces[i].contains(sep),
    ensures
        join(split(s, sep), sep) == s,
        join(pieces, sep) == s <==> split(s, sep) == pieces,
{
    lemma_join_split(s, sep);
    lemma_split_join(pieces, sep);
}

/// What a digit is worth; less than nothing for another character.
pub open spec fn digit_worth(c: char) -> int {
    if '0' <= c <= '9' {
        c as int - 48
    } else if 'a' <= c <= 'f' {
        c as int - 87
    } else {
        -1
    }
}

/// What a row of digits is worth.
pub open spec fn worth(s: Seq<char>, base: int) -> int
    decreases s.len(),
{
    if s.len() == 0 {
        0
    } else {
        worth(s.drop_last(), base) * base + digit_worth(s.last())
    }
}

/// A number that is written is read back: its digits are those of the base, they are worth the number,
/// and none but zero begins with a zero.
pub proof fn law_numeral_read_back(n: nat, base: nat)
    requires
        2 <= base <= 16,
    ensures
        worth(numeral(n, base), base as int) == n,
        numeral(n, base).len() > 0,
        forall|i: int|
            0 <= i < numeral(n, base).len() ==> 0 <= digit_worth(#[trigger] numeral(n, base)[i])
                < base,
        numeral(n, base)[0] == '0' ==> numeral(n, base) == seq!['0'],
    decreases n,
{
    let s = numeral(n, base);
    lemma_numeral_end(n, base);
    lemma_digit(n % base);
    vstd::arithmetic::div_mod::lemma_mod_bound(n as int, base as int);
    if n >= base {
        let before = numeral(n / base, base);
        law_numeral_read_back(n / base, base);
        vstd::arithmetic::div_mod::lemma_fundamental_div_mod(n as int, base as int);
        assert(worth(s, base as int) == (n / base) * base + n % base);
        assert((n / base) * base + n % base == n) by (nonlinear_arith)
            requires
                n == base * (n / base) + n % base,
        ;
        assert forall|i: int| 0 <= i < s.len() implies 0 <= digit_worth(#[trigger] s[i])
            < base by {
            if i < s.len() - 1 {
                assert(s[i] == before[i]);
            }
        }
        assert(s[0] == before[0]);
        if s[0] == '0' {
            assert(worth(before, base as int) == 0) by {
                assert(before.drop_last().len() == 0);
                reveal_with_fuel(worth, 2);
            }
            lemma_quotient_positive(n, base);
        }
    } else {
        vstd::arithmetic::div_mod::lemma_small_mod(n, base);
        lemma_digit(n);
        assert(s.drop_last().len() == 0);
        reveal_with_fuel(worth, 2);
    }
}

/// A number not below its divisor has a quotient.
proof fn lemma_quotient_positive(n: nat, base: nat)
    requires
        2 <= base <= n,
    ensures
        n / base > 0,
{
    vstd::arithmetic::div_mod::lemma_div_non_zero(n as int, base as int);
}

/// A string is there exactly if its characters are, and they are its characters.
pub proof fn law_optional_view(s: Option<String>)
    ensures
        s is Some ==> optional_view(s) == Some((s->0)@),
        s is None ==> optional_view(s) is None,
{
}

}
