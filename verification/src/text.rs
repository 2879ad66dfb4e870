//! Text measured in UTF-8 bytes: truncation at character boundaries, decimal
//! numerals and the small string operations that the rest of the crate uses.
use vstd::prelude::*;
use vstd::std_specs::iter::IteratorSpec;
use vstd::string::*;
use vstd::utf8::*;

verus! {

/// `String::push`: the character is appended to the text.
pub assume_specification[ String::push ](s: &mut String, c: char)
    ensures
        final(s)@ == old(s)@.push(c),
;

/// Number of bytes that a text takes in UTF-8.
pub open spec fn byte_count(s: Seq<char>) -> nat {
    encode_utf8(s).len()
}

/// Number of bytes that one character takes in UTF-8.
pub open spec fn char_width(c: char) -> nat {
    encode_scalar(c as u32).len()
}

/// Number of leading characters that fit into `max` bytes together.
pub open spec fn fitting_chars(s: Seq<char>, max: int) -> nat
    decreases s.len(),
{
    if s.len() == 0 || char_width(s[0]) > max {
        0
    } else {
        1 + fitting_chars(s.drop_first(), max - char_width(s[0]))
    }
}

/// The digit character of a number below ten.
pub open spec fn digit_char(d: nat) -> char {
    (48 + d) as char
}

/// The decimal numeral of a number, without leading zeros.
pub open spec fn decimal(n: nat) -> Seq<char>
    decreases n,
{
    if n < 10 {
        seq![digit_char(n)]
    } else {
        decimal(n / 10).push(digit_char(n % 10))
    }
}

/// The notice that stands at the end of a truncated text.
pub open spec fn truncation_notice(omitted: nat) -> Seq<char> {
    "\n... [TRUNCATED: "@ + decimal(omitted) + " bytes omitted]"@
}

/// A text cut down to `max` bytes: unchanged if it fits, and otherwise the
/// longest prefix of whole characters that fits, followed by a notice of how
/// many bytes were left out.
pub open spec fn truncated(s: Seq<char>, max: nat) -> Seq<char> {
    if byte_count(s) <= max {
        s
    } else {
        let kept = s.take(fitting_chars(s, max as int) as int);
        kept + truncation_notice((byte_count(s) - byte_count(kept)) as nat)
    }
}

/// Length of a text in bytes.
pub fn byte_len(s: &str) -> (n: usize)
    ensures
        n == byte_count(s@),
{
    s.as_bytes().len()
}

/// Texts with the same UTF-8 encoding are the same text.
pub proof fn lemma_encode_injective(a: Seq<char>, b: Seq<char>)
    requires
        encode_utf8(a) == encode_utf8(b),
    ensures
        a == b,
{
    encode_utf8_decode_utf8(a);
    encode_utf8_decode_utf8(b);
}

/// Whether two texts are equal.
pub fn same_text(a: &str, b: &str) -> (r: bool)
    ensures
        r == (a@ == b@),
{
    let x = a.as_bytes();
    let y = b.as_bytes();
    if x.len() != y.len() {
        return false;
    }
    let mut i: usize = 0;
    while i < x.len()
        invariant
            i <= x@.len(),
            x@.len() == y@.len(),
            x@ == encode_utf8(a@),
            y@ == encode_utf8(b@),
            forall|j: int| 0 <= j < i ==> x@[j] == y@[j],
        decreases x@.len() - i,
    {
        if x[i] != y[i] {
            return false;
        }
        i += 1;
    }
    proof {
        assert(x@ =~= y@);
        lemma_encode_injective(a@, b@);
    }
    true
}

/// Whether a text begins with another.
pub fn starts_with(s: &str, prefix: &str) -> (r: bool)
    ensures
        r == prefix@.is_prefix_of(s@),
{
    let mut rest = s.chars();
    let mut wanted = prefix.chars();
    let ghost mut k: int = 0;
    assert(s@.skip(0) =~= s@);
    assert(prefix@.skip(0) =~= prefix@);
    loop
        invariant
            0 <= k <= prefix@.len(),
            k <= s@.len(),
            rest.remaining() == s@.skip(k),
            wanted.remaining() == prefix@.skip(k),
            rest.obeys_prophetic_iter_laws(),
            wanted.obeys_prophetic_iter_laws(),
            forall|j: int| 0 <= j < k ==> s@[j] == prefix@[j],
        decreases prefix@.len() - k,
    {
        match wanted.next() {
            None => {
                assert(prefix@ =~= s@.take(prefix@.len() as int));
                return true;
            },
            Some(c) => match rest.next() {
                None => {
                    return false;
                },
                Some(d) => {
                    assert(prefix@.skip(k)[0] == prefix@[k]);
                    assert(s@.skip(k)[0] == s@[k]);
                    if c != d {
                        assert(s@[k] != prefix@[k]);
                        return false;
                    }
                    proof {
                        assert(s@.skip(k).drop_first() =~= s@.skip(k + 1));
                        assert(prefix@.skip(k).drop_first() =~= prefix@.skip(k + 1));
                        k = k + 1;
                    }
                },
            },
        }
    }
}

/// Two texts in a row.
pub fn joined(a: &str, b: &str) -> (r: String)
    ensures
        r@ == a@ + b@,
{
    let mut out = a.to_owned();
    out.append(b);
    out
}

/// Appends the decimal numeral of `n`.
pub fn push_decimal(out: &mut String, n: usize)
    ensures
        final(out)@ == old(out)@ + decimal(n as nat),
    decreases n,
{
    if n >= 10 {
        push_decimal(out, n / 10);
    }
    let d: u8 = (n % 10) as u8;
    out.push((48 + d) as char);
    assert(out@ =~= old(out)@ + decimal(n as nat));
}

/// The UTF-8 encoding of two texts in a row is the two encodings in a row.
pub proof fn lemma_encode_concat(a: Seq<char>, b: Seq<char>)
    ensures
        encode_utf8(a + b) == encode_utf8(a) + encode_utf8(b),
    decreases a.len(),
{
    if a.len() == 0 {
        assert(a + b =~= b);
        assert(encode_utf8(a) + encode_utf8(b) =~= encode_utf8(b));
    } else {
        assert((a + b).drop_first() =~= a.drop_first() + b);
        lemma_encode_concat(a.drop_first(), b);
        assert(encode_utf8(a + b) =~= encode_utf8(a) + encode_utf8(b));
    }
}

/// `fitting_chars` counts the characters before the last character boundary
/// at or below `max`.
pub proof fn lemma_boundary_is_prefix(s: Seq<char>, max: int, boundary: int)
    requires
        0 <= boundary <= max,
        boundary <= byte_count(s),
        is_char_boundary(encode_utf8(s), boundary),
        forall|j: int| boundary < j <= max ==> !is_char_boundary(encode_utf8(s), j),
    ensures
        fitting_chars(s, max) <= s.len(),
        encode_utf8(s.take(fitting_chars(s, max) as int)) == encode_utf8(s).subrange(0, boundary),
    decreases s.len(),
{
    let bytes = encode_utf8(s);
    encode_utf8_valid_utf8(s);
    if s.len() > 0 {
        encode_utf8_first_scalar(s);
        let rest = s.drop_first();
        let w = char_width(s[0]) as int;
        encode_utf8_valid_utf8(rest);
        assert(pop_first_scalar(bytes) =~= encode_utf8(rest));
        assert(is_char_boundary(bytes, w)) by {
            reveal_with_fuel(is_char_boundary, 2);
        }
        if w > max {
            if boundary > 0 {
                reveal_with_fuel(is_char_boundary, 2);
                assert(false);
            }
            assert(s.take(0) =~= Seq::<char>::empty());
            assert(encode_utf8(s.take(0)) =~= bytes.subrange(0, boundary));
        } else {
            assert(boundary >= w);
            assert(is_char_boundary(encode_utf8(rest), boundary - w));
            assert forall|j: int| boundary - w < j <= max - w implies !is_char_boundary(
                encode_utf8(rest),
                j,
            ) by {
                assert(!is_char_boundary(bytes, j + w));
            }
            lemma_boundary_is_prefix(rest, max - w, boundary - w);
            let k = fitting_chars(rest, max - w) as int;
            assert(s.take(k + 1).drop_first() =~= rest.take(k));
            assert(s.take(k + 1)[0] == s[0]);
            assert(encode_utf8(s.take(k + 1)) =~= bytes.subrange(0, boundary));
        }
    } else {
        assert(s.take(0) =~= s);
        assert(bytes.subrange(0, boundary) =~= bytes);
    }
}

/// The largest character boundary of `s` that is not above `index`, or the
/// length of `s` where `index` lies beyond it.
pub fn floor_char_boundary(s: &str, index: usize) -> (r: usize)
    ensures
        r <= byte_count(s@),
        is_char_boundary(encode_utf8(s@), r as int),
        index >= byte_count(s@) ==> r == byte_count(s@),
        index < byte_count(s@) ==> r <= index && forall|j: int|
            r < j <= index ==> !is_char_boundary(encode_utf8(s@), j),
{
    proof {
        encode_utf8_valid_utf8(s@);
        is_char_boundary_start_end_of_seq(encode_utf8(s@));
    }
    let len: usize = byte_len(s);
    if index >= len {
        return len;
    }
    let mut i: usize = index;
    while i > 0 && !s.is_char_boundary(i)
        invariant
            i <= index < byte_count(s@),
            is_char_boundary(encode_utf8(s@), 0),
            forall|j: int| i < j <= index ==> !is_char_boundary(encode_utf8(s@), j),
        decreases i,
    {
        i -= 1;
    }
    i
}

/// Cuts a text down to `max_bytes` bytes at a character boundary and says at
/// its end how many bytes were left out; a text that fits stays as it is.
pub fn truncate_utf8(s: &str, max_bytes: usize) -> (r: String)
    ensures
        r@ == truncated(s@, max_bytes as nat),
{
    let len: usize = byte_len(s);
    if len <= max_bytes {
        return s.to_owned();
    }
    let boundary: usize = floor_char_boundary(s, max_bytes);
    let omitted: usize = len - boundary;
    let (kept, _rest) = s.split_at(boundary);
    proof {
        lemma_boundary_is_prefix(s@, max_bytes as int, boundary as int);
        let prefix = s@.take(fitting_chars(s@, max_bytes as int) as int);
        encode_utf8_decode_utf8(kept@);
        encode_utf8_decode_utf8(prefix);
        assert(kept@ == prefix);
    }
    let mut out = kept.to_owned();
    out.append("\n... [TRUNCATED: ");
    push_decimal(&mut out, omitted);
    out.append(" bytes omitted]");
    assert(out@ =~= truncated(s@, max_bytes as nat));
    out
}

} // verus!
