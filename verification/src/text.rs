//! Decoding byte sequences as UTF-8 into code points, and counting line
//! feeds, words and characters of the decoded text.

use vstd::prelude::*;

verus! {

/// A byte in `0x80..0xC0`: a UTF-8 continuation byte.
pub open spec fn is_cont_byte(b: u8) -> bool {
    0x80 <= b && b < 0xC0
}

/// How many bytes the UTF-8 character led by `b0` occupies.
pub open spec fn utf8_char_len(b0: u8) -> int {
    if b0 < 0x80 {
        1
    } else if b0 < 0xE0 {
        2
    } else if b0 < 0xF0 {
        3
    } else {
        4
    }
}

/// Whether `s` begins with one well-formed UTF-8 character. The ranges of
/// the lead and second bytes rule out overlong encodings (lead bytes
/// 0xC0/0xC1 and the low second-byte ranges after 0xE0 and 0xF0),
/// surrogate code points (0xED followed by 0xA0 or more) and code points
/// above 0x10FFFF (lead bytes above 0xF4, and 0xF4 followed by 0x90 or
/// more).
pub open spec fn valid_utf8_head(s: Seq<u8>) -> bool {
    s.len() > 0 && {
        let b0 = s[0];
        if b0 < 0x80 {
            true
        } else if b0 < 0xC2 {
            false
        } else if b0 < 0xE0 {
            s.len() >= 2 && is_cont_byte(s[1])
        } else if b0 == 0xE0 {
            s.len() >= 3 && 0xA0 <= s[1] && s[1] < 0xC0 && is_cont_byte(s[2])
        } else if b0 == 0xED {
            s.len() >= 3 && 0x80 <= s[1] && s[1] < 0xA0 && is_cont_byte(s[2])
        } else if b0 < 0xF0 {
            s.len() >= 3 && is_cont_byte(s[1]) && is_cont_byte(s[2])
        } else if b0 == 0xF0 {
            s.len() >= 4 && 0x90 <= s[1] && s[1] < 0xC0 && is_cont_byte(s[2]) && is_cont_byte(
                s[3],
            )
        } else if b0 < 0xF4 {
            s.len() >= 4 && is_cont_byte(s[1]) && is_cont_byte(s[2]) && is_cont_byte(s[3])
        } else if b0 == 0xF4 {
            s.len() >= 4 && 0x80 <= s[1] && s[1] < 0x90 && is_cont_byte(s[2]) && is_cont_byte(
                s[3],
            )
        } else {
            false
        }
    }
}

/// The code point of the UTF-8 character at the head of `s`.
pub open spec fn head_code_point(s: Seq<u8>) -> u32
    recommends
        valid_utf8_head(s),
{
    let b0 = s[0] as int;
    let v: int = if b0 < 0x80 {
        b0
    } else if b0 < 0xE0 {
        (b0 - 0xC0) * 0x40 + (s[1] - 0x80)
    } else if b0 < 0xF0 {
        (b0 - 0xE0) * 0x1000 + (s[1] - 0x80) * 0x40 + (s[2] - 0x80)
    } else {
        (b0 - 0xF0) * 0x40000 + (s[1] - 0x80) * 0x1000 + (s[2] - 0x80) * 0x40 + (s[3] - 0x80)
    };
    v as u32
}

/// The sequence of code points that `s` encodes in UTF-8, or `None` when
/// `s` is not valid UTF-8.
pub open spec fn decode_utf8(s: Seq<u8>) -> Option<Seq<u32>>
    decreases s.len(),
{
    if s.len() == 0 {
        Some(Seq::empty())
    } else if !valid_utf8_head(s) {
        None
    } else {
        match decode_utf8(s.skip(utf8_char_len(s[0]))) {
            Some(rest) => Some(seq![head_code_point(s)] + rest),
            None => None,
        }
    }
}

/// `rest` with the already-decoded prefix `p` put back in front.
spec fn with_prefix(p: Seq<u32>, rest: Option<Seq<u32>>) -> Option<Seq<u32>> {
    match rest {
        Some(t) => Some(p + t),
        None => None,
    }
}

/// The code points with the Unicode whitespace property: the ASCII
/// whitespace controls and the space, next line, no-break space, ogham
/// space mark, the fixed-width spaces, line and paragraph separators,
/// narrow no-break space, medium mathematical space, and ideographic
/// space.
pub open spec fn is_whitespace(c: u32) -> bool {
    c == 0x09 || c == 0x0A || c == 0x0B || c == 0x0C || c == 0x0D || c == 0x20 || c == 0x85
        || c == 0xA0 || c == 0x1680 || (0x2000 <= c && c <= 0x200A) || c == 0x2028 || c == 0x2029
        || c == 0x202F || c == 0x205F || c == 0x3000
}

/// The number of line feeds in the text `t`.
pub open spec fn lines_of(t: Seq<u32>) -> nat
    decreases t.len(),
{
    if t.len() == 0 {
        0
    } else {
        (if t[0] == 0x0A {
            1nat
        } else {
            0nat
        }) + lines_of(t.skip(1))
    }
}

/// The number of maximal runs of non-whitespace code points in `t`, given
/// whether the text just before `t` ended inside such a run.
pub open spec fn words_from(t: Seq<u32>, in_word: bool) -> nat
    decreases t.len(),
{
    if t.len() == 0 {
        0
    } else if is_whitespace(t[0]) {
        words_from(t.skip(1), false)
    } else {
        (if in_word {
            0nat
        } else {
            1nat
        }) + words_from(t.skip(1), true)
    }
}

/// The number of maximal whitespace-delimited runs of non-whitespace code
/// points in `t`.
pub open spec fn words_of(t: Seq<u32>) -> nat {
    words_from(t, false)
}

/// The code point of a single-byte character equals its lead byte; a
/// character of two or more bytes encodes a code point of 0x80 or more.
proof fn lemma_head_code_point_size(s: Seq<u8>)
    requires
        valid_utf8_head(s),
    ensures
        s[0] < 0x80 ==> head_code_point(s) == s[0] && utf8_char_len(s[0]) == 1,
        s[0] >= 0x80 ==> head_code_point(s) >= 0x80 && utf8_char_len(s[0]) >= 2,
        s.len() >= utf8_char_len(s[0]),
{
    let b0 = s[0] as int;
    if b0 < 0x80 {
    } else if b0 < 0xE0 {
        let v = (b0 - 0xC0) * 0x40 + (s[1] - 0x80);
        assert(0x80 <= v < 0x800);
        assert(head_code_point(s) == v as u32);
    } else if b0 < 0xF0 {
        let v = (b0 - 0xE0) * 0x1000 + (s[1] - 0x80) * 0x40 + (s[2] - 0x80);
        assert(0x800 <= v < 0x10000);
        assert(head_code_point(s) == v as u32);
    } else {
        let v = (b0 - 0xF0) * 0x40000 + (s[1] - 0x80) * 0x1000 + (s[2] - 0x80) * 0x40 + (s[3]
            - 0x80);
        assert(0x10000 <= v < 0x110000);
        assert(head_code_point(s) == v as u32);
    }
}

/// A text of single-byte characters only has exactly as many code points
/// as its encoding has bytes; a text containing a multi-byte character has
/// strictly fewer.
pub proof fn lemma_char_count_vs_byte_count(s: Seq<u8>, t: Seq<u32>)
    requires
        decode_utf8(s) == Some(t),
    ensures
        t.len() <= s.len(),
        (forall|k: int| 0 <= k < t.len() ==> t[k] < 0x80) ==> t.len() == s.len(),
        (exists|k: int| 0 <= k < t.len() && t[k] >= 0x80) ==> t.len() < s.len(),
    decreases s.len(),
{
    if s.len() == 0 {
        assert(t =~= Seq::<u32>::empty());
    } else {
        let n = utf8_char_len(s[0]);
        let h = head_code_point(s);
        lemma_head_code_point_size(s);
        let rest = decode_utf8(s.skip(n))->Some_0;
        assert(t == seq![h] + rest);
        assert(t[0] == h);
        assert(t.len() == 1 + rest.len());
        assert(s.skip(n).len() == s.len() - n);
        lemma_char_count_vs_byte_count(s.skip(n), rest);
        if forall|k: int| 0 <= k < t.len() ==> t[k] < 0x80 {
            assert(t[0] < 0x80);
            assert(s[0] < 0x80);
            assert forall|j: int| 0 <= j < rest.len() implies rest[j] < 0x80 by {
                assert(t[j + 1] == rest[j]);
            }
            assert(rest.len() == s.skip(n).len());
        }
        if exists|k: int| 0 <= k < t.len() && t[k] >= 0x80 {
            let k = choose|k: int| 0 <= k < t.len() && t[k] >= 0x80;
            if k == 0 {
                assert(s[0] >= 0x80);
                assert(n >= 2);
            } else {
                assert(rest[k - 1] == t[k]);
                assert(exists|j: int| 0 <= j < rest.len() && rest[j] >= 0x80);
                assert(rest.len() < s.skip(n).len());
            }
        }
    }
}

/// Decode the single UTF-8 character that starts at position `i` of
/// `bytes`: its code point and the number of bytes it occupies, or `None`
/// when no well-formed character starts there.
fn decode_head(bytes: &Vec<u8>, i: usize) -> (r: Option<(u32, usize)>)
    requires
        i < bytes@.len(),
    ensures
        match r {
            Some(p) => valid_utf8_head(bytes@.skip(i as int)) && p.0 == head_code_point(
                bytes@.skip(i as int),
            ) && p.1 == utf8_char_len(bytes@[i as int]) && i + p.1 <= bytes@.len(),
            None => !valid_utf8_head(bytes@.skip(i as int)),
        },
{
    let ghost rem = bytes@.skip(i as int);
    proof {
        assert(rem.len() == bytes@.len() - i);
    }
    let b0 = bytes[i];
    proof {
        assert(rem[0] == b0);
    }
    if b0 < 0x80 {
        return Some((b0 as u32, 1));
    }
    if b0 < 0xC2 {
        return None;
    }
    if b0 < 0xE0 {
        if bytes.len() - i < 2 {
            return None;
        }
        let b1 = bytes[i + 1];
        proof {
            assert(rem[1] == b1);
        }
        if !(0x80 <= b1 && b1 < 0xC0) {
            return None;
        }
        return Some(((b0 as u32 - 0xC0) * 0x40 + (b1 as u32 - 0x80), 2));
    }
    if b0 < 0xF0 {
        if bytes.len() - i < 3 {
            return None;
        }
        let b1 = bytes[i + 1];
        let b2 = bytes[i + 2];
        proof {
            assert(rem[1] == b1);
            assert(rem[2] == b2);
        }
        let low: u8 = if b0 == 0xE0 {
            0xA0
        } else {
            0x80
        };
        let high: u8 = if b0 == 0xED {
            0xA0
        } else {
            0xC0
        };
        if !(low <= b1 && b1 < high) {
            return None;
        }
        if !(0x80 <= b2 && b2 < 0xC0) {
            return None;
        }
        return Some(
            ((b0 as u32 - 0xE0) * 0x1000 + (b1 as u32 - 0x80) * 0x40 + (b2 as u32 - 0x80), 3),
        );
    }
    if b0 >= 0xF5 {
        return None;
    }
    if bytes.len() - i < 4 {
        return None;
    }
    let b1 = bytes[i + 1];
    let b2 = bytes[i + 2];
    let b3 = bytes[i + 3];
    proof {
        assert(rem[1] == b1);
        assert(rem[2] == b2);
        assert(rem[3] == b3);
    }
    let low: u8 = if b0 == 0xF0 {
        0x90
    } else {
        0x80
    };
    let high: u8 = if b0 == 0xF4 {
        0x90
    } else {
        0xC0
    };
    if !(low <= b1 && b1 < high) {
        return None;
    }
    if !(0x80 <= b2 && b2 < 0xC0) {
        return None;
    }
    if !(0x80 <= b3 && b3 < 0xC0) {
        return None;
    }
    Some(
        (
            (b0 as u32 - 0xF0) * 0x40000 + (b1 as u32 - 0x80) * 0x1000 + (b2 as u32 - 0x80) * 0x40
                + (b3 as u32 - 0x80),
            4,
        ),
    )
}

/// Decode `bytes` as UTF-8 into its sequence of code points, or report
/// that the bytes are not valid UTF-8.
pub fn utf8_to_code_points(bytes: &Vec<u8>) -> (r: Option<Vec<u32>>)
    ensures
        match r {
            Some(t) => decode_utf8(bytes@) == Some(t@),
            None => decode_utf8(bytes@) is None,
        },
{
    let mut out: Vec<u32> = Vec::new();
    let mut i: usize = 0;
    proof {
        assert(bytes@.skip(0) =~= bytes@);
        assert(Seq::<u32>::empty() + decode_utf8(bytes@)->Some_0 =~= decode_utf8(bytes@)->Some_0);
    }
    while i < bytes.len()
        invariant
            i <= bytes@.len(),
            decode_utf8(bytes@) == with_prefix(out@, decode_utf8(bytes@.skip(i as int))),
        decreases bytes@.len() - i,
    {
        let ghost rem = bytes@.skip(i as int);
        proof {
            assert(rem.len() == bytes@.len() - i);
            assert(rem[0] == bytes@[i as int]);
        }
        match decode_head(bytes, i) {
            None => {
                proof {
                    assert(decode_utf8(rem) is None);
                }
                return None;
            },
            Some((cp, n)) => {
                let ghost old_out = out@;
                out.push(cp);
                i = i + n;
                proof {
                    let rem2 = bytes@.skip(i as int);
                    assert(rem.skip(utf8_char_len(rem[0])) =~= rem2);
                    assert(decode_utf8(rem) == with_prefix(seq![cp], decode_utf8(rem2)));
                    assert(out@ =~= old_out + seq![cp]);
                    match decode_utf8(rem2) {
                        Some(t) => {
                            assert(old_out + (seq![cp] + t) =~= out@ + t);
                        },
                        None => {
                        },
                    }
                }
            },
        }
    }
    proof {
        assert(bytes@.skip(bytes@.len() as int) =~= Seq::<u8>::empty());
        assert(out@ + Seq::<u32>::empty() =~= out@);
    }
    Some(out)
}

/// Whether the code point `c` is whitespace.
pub fn is_whitespace_code_point(c: u32) -> (r: bool)
    ensures
        r == is_whitespace(c),
{
    c == 0x09 || c == 0x0A || c == 0x0B || c == 0x0C || c == 0x0D || c == 0x20 || c == 0x85
        || c == 0xA0 || c == 0x1680 || (0x2000 <= c && c <= 0x200A) || c == 0x2028 || c == 0x2029
        || c == 0x202F || c == 0x205F || c == 0x3000
}

/// Count the line feeds in `text`.
pub fn count_lines(text: &Vec<u32>) -> (n: usize)
    ensures
        n == lines_of(text@),
{
    let mut n: usize = 0;
    let mut i: usize = 0;
    proof {
        assert(text@.skip(0) =~= text@);
    }
    while i < text.len()
        invariant
            i <= text@.len(),
            n <= i,
            lines_of(text@) == n + lines_of(text@.skip(i as int)),
        decreases text@.len() - i,
    {
        let ghost rem = text@.skip(i as int);
        proof {
            assert(rem.len() == text@.len() - i);
            assert(rem[0] == text@[i as int]);
            assert(rem.skip(1) =~= text@.skip(i as int + 1));
        }
        if text[i] == 0x0A {
            n = n + 1;
        }
        i = i + 1;
    }
    proof {
        assert(text@.skip(text@.len() as int) =~= Seq::<u32>::empty());
    }
    n
}

/// Count the maximal runs of non-whitespace code points in `text`.
pub fn count_words(text: &Vec<u32>) -> (n: usize)
    ensures
        n == words_of(text@),
{
    let mut n: usize = 0;
    let mut i: usize = 0;
    let mut in_word = false;
    proof {
        assert(text@.skip(0) =~= text@);
    }
    while i < text.len()
        invariant
            i <= text@.len(),
            n <= i,
            words_of(text@) == n + words_from(text@.skip(i as int), in_word),
        decreases text@.len() - i,
    {
        let ghost rem = text@.skip(i as int);
        proof {
            assert(rem.len() == text@.len() - i);
            assert(rem[0] == text@[i as int]);
            assert(rem.skip(1) =~= text@.skip(i as int + 1));
        }
        if is_whitespace_code_point(text[i]) {
            in_word = false;
        } else {
            if !in_word {
                n = n + 1;
            }
            in_word = true;
        }
        i = i + 1;
    }
    proof {
        assert(text@.skip(text@.len() as int) =~= Seq::<u32>::empty());
    }
    n
}

} // verus!
