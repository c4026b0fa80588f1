use vstd::prelude::*;
use vstd::utf8::*;
use vstd::string::StringSliceAdditionalSpecFns;

verus! {

broadcast use vstd::utf8::char_is_scalar;

/// Number of bytes that the UTF-8 encoding of `c` takes.
pub open spec fn utf8_width(c: char) -> nat {
    encode_scalar(c as u32).len()
}

/// Byte offset, in the UTF-8 encoding of `src`, of the character at index `k`.
pub open spec fn byte_offset(src: Seq<char>, k: int) -> nat {
    encode_utf8(src.take(k)).len()
}

/// The encoding of a concatenation is the concatenation of the encodings.
pub proof fn lemma_encode_concat(a: Seq<char>, b: Seq<char>)
    ensures
        encode_utf8(a + b) == encode_utf8(a) + encode_utf8(b),
    decreases a.len(),
{
    if a.len() == 0 {
        assert(a + b =~= b);
    } else {
        assert((a + b).drop_first() =~= a.drop_first() + b);
        lemma_encode_concat(a.drop_first(), b);
    }
}

/// A character takes between one and four bytes.
pub proof fn lemma_width_bounds(c: char)
    ensures
        1 <= utf8_width(c) <= 4,
{
}

/// The byte offset grows by the width of each character passed.
pub proof fn lemma_byte_offset_step(src: Seq<char>, k: int)
    requires
        0 <= k < src.len(),
    ensures
        byte_offset(src, k + 1) == byte_offset(src, k) + utf8_width(src[k]),
{
    assert(src.take(k + 1) =~= src.take(k) + seq![src[k]]);
    lemma_encode_concat(src.take(k), seq![src[k]]);
    let one = seq![src[k]];
    assert(one.drop_first() =~= Seq::<char>::empty());
    assert(encode_utf8(one.drop_first()) =~= Seq::<u8>::empty());
    assert(encode_utf8(one) == encode_scalar(src[k] as u32) + encode_utf8(one.drop_first()));
    assert(encode_utf8(one) =~= encode_scalar(src[k] as u32));
}

/// Byte offsets never decrease and count at least one byte per character.
pub proof fn lemma_byte_offset_mono(src: Seq<char>, j: int, k: int)
    requires
        0 <= j <= k <= src.len(),
    ensures
        byte_offset(src, j) + (k - j) <= byte_offset(src, k),
    decreases k - j,
{
    if j < k {
        lemma_byte_offset_mono(src, j, k - 1);
        lemma_byte_offset_step(src, k - 1);
        lemma_width_bounds(src[k - 1]);
    }
}

/// The offset past the last character is the length of the whole encoding.
pub proof fn lemma_byte_offset_end(src: Seq<char>)
    ensures
        byte_offset(src, src.len() as int) == encode_utf8(src).len(),
{
    assert(src.take(src.len() as int) =~= src);
}

/// The encoding of `src` splits at the byte offset of any character index.
pub proof fn lemma_split_encoding(src: Seq<char>, k: int)
    requires
        0 <= k <= src.len(),
    ensures
        encode_utf8(src) == encode_utf8(src.take(k)) + encode_utf8(src.skip(k)),
{
    assert(src =~= src.take(k) + src.skip(k));
    lemma_encode_concat(src.take(k), src.skip(k));
}

/// The byte offset of every character index is a character boundary of the
/// encoding.
pub proof fn lemma_char_boundary(src: Seq<char>, k: int)
    requires
        0 <= k <= src.len(),
    ensures
        is_char_boundary(encode_utf8(src), byte_offset(src, k) as int),
    decreases k,
{
    let bytes = encode_utf8(src);
    encode_utf8_valid_utf8(src);
    if k == 0 {
        assert(src.take(0) =~= Seq::<char>::empty());
    } else {
        let tail = src.drop_first();
        encode_utf8_first_scalar(src);
        assert(pop_first_scalar(bytes) =~= encode_utf8(tail));
        encode_utf8_valid_utf8(tail);
        lemma_char_boundary(tail, k - 1);
        assert(src.take(k) =~= seq![src[0]] + tail.take(k - 1));
        lemma_encode_concat(seq![src[0]], tail.take(k - 1));
        let one = seq![src[0]];
        assert(one.drop_first() =~= Seq::<char>::empty());
        assert(encode_utf8(one) == encode_scalar(src[0] as u32) + encode_utf8(one.drop_first()));
        assert(encode_utf8(one) =~= encode_scalar(src[0] as u32));
        lemma_byte_offset_mono(src, k, src.len() as int);
        lemma_byte_offset_end(src);
    }
}

/// A string whose bytes encode `chars` holds `chars`.
pub proof fn lemma_view_of_bytes(t: &str, chars: Seq<char>)
    requires
        t.spec_bytes() == encode_utf8(chars),
    ensures
        t@ == chars,
{
    encode_utf8_decode_utf8(t@);
    encode_utf8_decode_utf8(chars);
}

/// The characters of `s` from index `from` to index `to`, cut at their byte
/// offsets `from_byte` and `to_byte`.
pub(crate) fn slice_chars<'a>(
    s: &'a str,
    from_byte: usize,
    to_byte: usize,
    Ghost(from): Ghost<int>,
    Ghost(to): Ghost<int>,
) -> (r: &'a str)
    requires
        0 <= from <= to <= s@.len(),
        from_byte == byte_offset(s@, from),
        to_byte == byte_offset(s@, to),
    ensures
        r@ == s@.subrange(from, to),
        r.spec_bytes() == s.spec_bytes().subrange(from_byte as int, to_byte as int),
{
    let ghost rest = s@.skip(from);
    let ghost m = to - from;
    proof {
        lemma_split_encoding(s@, from);
        lemma_char_boundary(s@, from);
        lemma_byte_offset_mono(s@, from, to);
        lemma_byte_offset_mono(s@, to, s@.len() as int);
        lemma_byte_offset_end(s@);
        assert(s@.take(to) =~= s@.take(from) + rest.take(m));
        lemma_encode_concat(s@.take(from), rest.take(m));
        lemma_char_boundary(rest, m);
        lemma_split_encoding(rest, m);
    }
    let (_, tail) = s.split_at(from_byte);
    proof {
        assert(tail.spec_bytes() =~= encode_utf8(rest));
        lemma_view_of_bytes(tail, rest);
    }
    let (r, _) = tail.split_at(to_byte - from_byte);
    proof {
        assert(r.spec_bytes() =~= encode_utf8(rest.take(m)));
        lemma_view_of_bytes(r, rest.take(m));
        assert(rest.take(m) =~= s@.subrange(from, to));
        assert(r.spec_bytes() =~= s.spec_bytes().subrange(from_byte as int, to_byte as int));
    }
    r
}

/// The first character of `s` and the rest of `s` after it, if `s` is not
/// empty.
pub fn split_first<'a>(s: &'a str) -> (r: Option<(char, &'a str)>)
    ensures
        s@.len() == 0 <==> r is None,
        r matches Some((c, t)) ==> c == s@[0] && t@ == s@.skip(1),
{
    if s.is_empty() {
        return None;
    }
    let c = s.get_char(0);
    let w = char_width(c);
    proof {
        lemma_split_encoding(s@, 1);
        lemma_char_boundary(s@, 1);
        lemma_byte_offset_step(s@, 0);
        assert(s@.take(0) =~= Seq::<char>::empty());
    }
    let (_, tail) = s.split_at(w);
    proof {
        assert(tail.spec_bytes() =~= encode_utf8(s@.skip(1)));
        lemma_view_of_bytes(tail, s@.skip(1));
    }
    Some((c, tail))
}

/// Number of bytes that the UTF-8 encoding of `c` takes.
pub fn char_width(c: char) -> (r: usize)
    ensures
        r == utf8_width(c),
{
    let v = c as u32;
    if v <= 0x7F {
        1
    } else if v <= 0x7FF {
        2
    } else if v <= 0xFFFF {
        3
    } else {
        4
    }
}

/// Whether `c` has Unicode's White_Space property.
pub uninterp spec fn white_space_char(c: char) -> bool;

/// Relies on `char::is_whitespace`: true exactly for the characters with
/// Unicode's White_Space property; its documentation shows `' '`, `'\n'` and
/// `'\u{A0}'` as white space and `'越'` as not.
#[verifier::external_body]
pub(crate) fn is_white_space(c: char) -> (r: bool)
    ensures
        r == white_space_char(c),
        c == ' ' ==> r,
        c == '\n' ==> r,
        c == '\u{A0}' ==> r,
        c == '越' ==> !r,
{
    c.is_whitespace()
}

/// Relies on `String::push`: appends `c` at the end.
#[verifier::external_body]
pub(crate) fn push_char(s: &mut String, c: char)
    ensures
        final(s)@ == old(s)@.push(c),
{
    s.push(c)
}

/// The character that writes the decimal digit `d`.
pub open spec fn digit_char(d: nat) -> char {
    if d == 0 {
        '0'
    } else if d == 1 {
        '1'
    } else if d == 2 {
        '2'
    } else if d == 3 {
        '3'
    } else if d == 4 {
        '4'
    } else if d == 5 {
        '5'
    } else if d == 6 {
        '6'
    } else if d == 7 {
        '7'
    } else if d == 8 {
        '8'
    } else {
        '9'
    }
}

/// `n` written in decimal, without leading zeros.
pub open spec fn decimal(n: nat) -> Seq<char>
    decreases n,
{
    if n < 10 {
        seq![digit_char(n)]
    } else {
        decimal(n / 10).push(digit_char(n % 10))
    }
}

fn digit(d: usize) -> (c: char)
    requires
        d < 10,
    ensures
        c == digit_char(d as nat),
{
    if d == 0 {
        '0'
    } else if d == 1 {
        '1'
    } else if d == 2 {
        '2'
    } else if d == 3 {
        '3'
    } else if d == 4 {
        '4'
    } else if d == 5 {
        '5'
    } else if d == 6 {
        '6'
    } else if d == 7 {
        '7'
    } else if d == 8 {
        '8'
    } else {
        '9'
    }
}

/// Appends `n` written in decimal.
pub fn push_decimal(s: &mut String, n: usize)
    ensures
        final(s)@ == old(s)@ + decimal(n as nat),
    decreases n,
{
    if n >= 10 {
        push_decimal(s, n / 10);
    }
    push_char(s, digit(n % 10));
    proof {
        if n >= 10 {
            assert(old(s)@ + decimal(n as nat) =~= old(s)@ + decimal((n / 10) as nat) + seq![
                digit_char((n % 10) as nat),
            ]);
        } else {
            assert(old(s)@ + decimal(n as nat) =~= old(s)@.push(digit_char((n % 10) as nat)));
        }
    }
}

} // verus!
