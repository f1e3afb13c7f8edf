//! Conversion of raw, null-terminated label fields into validated text.
//!
//! A label lives in the native layout as a fixed byte field holding a
//! null-terminated string.  Reading it means finding the terminator and
//! decoding the bytes before it; the decoding is UTF-8, stated against the
//! specification functions of `vstd::utf8`, and a field whose bytes are not
//! a valid encoding surfaces a distinct error instead of being truncated or
//! coerced.

use vstd::prelude::*;
use vstd::utf8::*;

verus! {

/// The ways a raw label field can fail to convert to text.
#[derive(Clone, Copy, Debug, PartialEq, Eq, Structural)]
pub enum LabelError {
    /// The field holds no terminating null byte.
    Unterminated,
    /// The bytes before the terminator are not a valid text encoding.
    InvalidEncoding,
}

/// Index of the first null byte of the field, or `None` when the field is
/// unterminated.
pub open spec fn first_nul(s: Seq<u8>) -> Option<int>
    decreases s.len(),
{
    if s.len() == 0 {
        None
    } else if s[0] == 0 {
        Some(0)
    } else {
        match first_nul(s.drop_first()) {
            None => None,
            Some(i) => Some(i + 1),
        }
    }
}

/// The bytes of a terminated label field before its first null byte.
pub open spec fn label_bytes(s: Seq<u8>) -> Seq<u8>
    recommends
        first_nul(s) is Some,
{
    s.take(first_nul(s).unwrap())
}

/// A field whose byte `i` is null, with no null byte before it, has its
/// first null exactly at `i`.
proof fn lemma_first_nul_found(s: Seq<u8>, i: int)
    requires
        0 <= i < s.len(),
        s[i] == 0,
        forall|j: int| 0 <= j < i ==> s[j] != 0,
    ensures
        first_nul(s) == Some(i),
    decreases i,
{
    if i > 0 {
        lemma_first_nul_found(s.drop_first(), i - 1);
    }
}

/// A field without a null byte has no first null.
proof fn lemma_first_nul_none(s: Seq<u8>)
    requires
        forall|j: int| 0 <= j < s.len() ==> s[j] != 0,
    ensures
        first_nul(s) is None,
    decreases s.len(),
{
    if s.len() > 0 {
        lemma_first_nul_none(s.drop_first());
    }
}

/// Scans a raw field for its terminating null byte.
pub fn find_nul(field: &Vec<u8>) -> (r: Option<usize>)
    ensures
        match r {
            Some(i) => first_nul(field@) == Some(i as int) && (i as int) < field@.len(),
            None => first_nul(field@) is None,
        },
{
    let n = field.len();
    let mut j: usize = 0;
    while j < n
        invariant
            n == field@.len(),
            j <= n,
            forall|t: int| 0 <= t < j ==> field@[t] != 0,
        decreases n - j,
    {
        if field[j] == 0 {
            proof {
                lemma_first_nul_found(field@, j as int);
            }
            return Some(j);
        }
        j += 1;
    }
    proof {
        lemma_first_nul_none(field@);
    }
    None
}

/// Relies on char::from_u32: it returns `Some` exactly on Unicode scalar
/// values (at most 0x10FFFF and not in the surrogate range), and the
/// character it returns has the given value.
#[verifier::external_body]
fn char_from_u32(v: u32) -> (r: Option<char>)
    ensures
        r is Some <==> (v < 0xd800 || (0xe000 <= v && v <= 0x10ffff)),
        r matches Some(c) ==> c as u32 == v,
{
    char::from_u32(v)
}

/// A byte run that decodes cleanly up to position `i` but does not continue
/// with a well-formed scalar encoding there is not valid UTF-8 as a whole.
proof fn lemma_invalid_at(bytes: Seq<u8>, i: int)
    requires
        0 <= i < bytes.len(),
        partial_valid_utf8(bytes, i),
        !valid_first_scalar(bytes.subrange(i, bytes.len() as int)),
    ensures
        !valid_utf8(bytes),
{
    let suffix = bytes.subrange(i, bytes.len() as int);
    assert(suffix.len() > 0);
    assert(!valid_utf8(suffix));
    partial_valid_partial_invalid_utf8(bytes, i);
}

/// Consuming the well-formed scalar encoding that starts at position `i`
/// extends the cleanly decoded prefix by exactly that scalar's character.
proof fn lemma_step_decode(bytes: Seq<u8>, i: int, width: int, c: u32)
    requires
        0 <= i,
        1 <= width <= 4,
        i + width <= bytes.len(),
        partial_valid_utf8(bytes, i),
        valid_first_scalar(bytes.subrange(i, bytes.len() as int)),
        decode_first_scalar(bytes.subrange(i, bytes.len() as int)) == c,
        length_of_first_scalar(bytes.subrange(i, bytes.len() as int)) == width,
        !is_continuation_byte(bytes[i]),
    ensures
        partial_valid_utf8(bytes, i + width),
        decode_utf8(bytes.subrange(0, i + width)) == decode_utf8(bytes.subrange(0, i)) + seq![
            c as char,
        ],
{
    let n = bytes.len() as int;
    let suffix = bytes.subrange(i, n);
    partial_valid_utf8_extend(bytes, i);
    let p = bytes.subrange(0, i + width);
    assert(valid_utf8(p));
    assert(p[i] == bytes[i]);
    is_char_boundary_iff_not_is_continuation_byte(p, i);
    decode_utf8_split(p, i);
    assert(p.subrange(0, i) =~= bytes.subrange(0, i));
    let sc = p.subrange(i, p.len() as int);
    valid_utf8_split(p, i);
    assert(valid_utf8(sc));
    assert(sc.len() == width);
    assert(forall|t: int| 0 <= t < width ==> sc[t] == suffix[t]);
    assert(valid_first_scalar(sc));
    assert(decode_first_scalar(sc) == c);
    assert(length_of_first_scalar(sc) == width);
    assert(pop_first_scalar(sc) =~= Seq::<u8>::empty());
    assert(decode_utf8(pop_first_scalar(sc)) =~= Seq::<char>::empty());
    assert(decode_utf8(sc) =~= seq![c as char]);
}

/// Decodes a UTF-8 byte run into its characters, returning `None` exactly
/// when the bytes are not a valid encoding.
pub fn decode_utf8_bytes(bytes: &Vec<u8>) -> (r: Option<Vec<char>>)
    ensures
        r is Some <==> valid_utf8(bytes@),
        r matches Some(v) ==> v@ == decode_utf8(bytes@),
{
    let n = bytes.len();
    let mut out: Vec<char> = Vec::new();
    let mut i: usize = 0;
    while i < n
        invariant
            n == bytes@.len(),
            i <= n,
            partial_valid_utf8(bytes@, i as int),
            out@ == decode_utf8(bytes@.subrange(0, i as int)),
        decreases n - i,
    {
        let ghost suffix = bytes@.subrange(i as int, n as int);
        let b0 = bytes[i];
        proof {
            assert(suffix[0] == b0);
        }
        if b0 <= 0x7f {
            let c: u32 = (b0 & 0x7f) as u32;
            proof {
                assert(c == codepoint_width_1(b0));
                assert(c <= 0x7f) by (bit_vector)
                    requires
                        c == (b0 & 0x7f) as u32,
                ;
                assert(valid_first_scalar(suffix));
                lemma_step_decode(bytes@, i as int, 1, c);
            }
            let ch = char_from_u32(c).unwrap();
            out.push(ch);
            proof {
                char_u32_cast(ch, c);
                assert(out@ =~= decode_utf8(bytes@.subrange(0, i as int)) + seq![c as char]);
            }
            i += 1;
        } else if b0 >= 0xc0 && b0 <= 0xdf {
            if i + 1 >= n {
                proof {
                    assert(!valid_first_scalar(suffix));
                    lemma_invalid_at(bytes@, i as int);
                }
                return None;
            }
            let b1 = bytes[i + 1];
            proof {
                assert(suffix[1] == b1);
            }
            if !(b1 >= 0x80 && b1 <= 0xbf) {
                proof {
                    assert(!valid_first_scalar(suffix));
                    lemma_invalid_at(bytes@, i as int);
                }
                return None;
            }
            let c: u32 = (((b0 & 0x1f) as u32) << 6) | ((b1 & 0x3f) as u32);
            proof {
                assert(c == codepoint_width_2(b0, b1));
            }
            if c < 0x80 {
                proof {
                    assert(!valid_first_scalar(suffix));
                    lemma_invalid_at(bytes@, i as int);
                }
                return None;
            }
            proof {
                assert(c <= 0x7ff) by (bit_vector)
                    requires
                        c == (((b0 & 0x1f) as u32) << 6) | ((b1 & 0x3f) as u32),
                ;
                assert(valid_first_scalar(suffix));
                lemma_step_decode(bytes@, i as int, 2, c);
            }
            let ch = char_from_u32(c).unwrap();
            out.push(ch);
            proof {
                char_u32_cast(ch, c);
                assert(out@ =~= decode_utf8(bytes@.subrange(0, i as int)) + seq![c as char]);
            }
            i += 2;
        } else if b0 >= 0xe0 && b0 <= 0xef {
            if i + 1 >= n {
                proof {
                    assert(!valid_first_scalar(suffix));
                    lemma_invalid_at(bytes@, i as int);
                }
                return None;
            }
            let b1 = bytes[i + 1];
            proof {
                assert(suffix[1] == b1);
            }
            if !(b1 >= 0x80 && b1 <= 0xbf) || i + 2 >= n {
                proof {
                    assert(!valid_first_scalar(suffix));
                    lemma_invalid_at(bytes@, i as int);
                }
                return None;
            }
            let b2 = bytes[i + 2];
            proof {
                assert(suffix[2] == b2);
            }
            if !(b2 >= 0x80 && b2 <= 0xbf) {
                proof {
                    assert(!valid_first_scalar(suffix));
                    lemma_invalid_at(bytes@, i as int);
                }
                return None;
            }
            let c: u32 = (((b0 & 0x0f) as u32) << 12) | (((b1 & 0x3f) as u32) << 6) | ((b2
                & 0x3f) as u32);
            proof {
                assert(c == codepoint_width_3(b0, b1, b2));
            }
            if c < 0x800 || (c >= 0xd800 && c <= 0xdfff) {
                proof {
                    assert(!valid_first_scalar(suffix));
                    lemma_invalid_at(bytes@, i as int);
                }
                return None;
            }
            proof {
                assert(c <= 0xffff) by (bit_vector)
                    requires
                        c == (((b0 & 0x0f) as u32) << 12) | (((b1 & 0x3f) as u32) << 6) | ((b2
                            & 0x3f) as u32),
                ;
                assert(valid_first_scalar(suffix));
                lemma_step_decode(bytes@, i as int, 3, c);
            }
            let ch = char_from_u32(c).unwrap();
            out.push(ch);
            proof {
                char_u32_cast(ch, c);
                assert(out@ =~= decode_utf8(bytes@.subrange(0, i as int)) + seq![c as char]);
            }
            i += 3;
        } else if b0 >= 0xf0 && b0 <= 0xf7 {
            if i + 1 >= n {
                proof {
                    assert(!valid_first_scalar(suffix));
                    lemma_invalid_at(bytes@, i as int);
                }
                return None;
            }
            let b1 = bytes[i + 1];
            proof {
                assert(suffix[1] == b1);
            }
            if !(b1 >= 0x80 && b1 <= 0xbf) || i + 2 >= n {
                proof {
                    assert(!valid_first_scalar(suffix));
                    lemma_invalid_at(bytes@, i as int);
                }
                return None;
            }
            let b2 = bytes[i + 2];
            proof {
                assert(suffix[2] == b2);
            }
            if !(b2 >= 0x80 && b2 <= 0xbf) || i + 3 >= n {
                proof {
                    assert(!valid_first_scalar(suffix));
                    lemma_invalid_at(bytes@, i as int);
                }
                return None;
            }
            let b3 = bytes[i + 3];
            proof {
                assert(suffix[3] == b3);
            }
            if !(b3 >= 0x80 && b3 <= 0xbf) {
                proof {
                    assert(!valid_first_scalar(suffix));
                    lemma_invalid_at(bytes@, i as int);
                }
                return None;
            }
            let c: u32 = (((b0 & 0x7) as u32) << 18) | (((b1 & 0x3f) as u32) << 12) | (((b2
                & 0x3f) as u32) << 6) | ((b3 & 0x3f) as u32);
            proof {
                assert(c == codepoint_width_4(b0, b1, b2, b3));
            }
            if c < 0x10000 || c > 0x10ffff {
                proof {
                    assert(!valid_first_scalar(suffix));
                    lemma_invalid_at(bytes@, i as int);
                }
                return None;
            }
            proof {
                assert(valid_first_scalar(suffix));
                lemma_step_decode(bytes@, i as int, 4, c);
            }
            let ch = char_from_u32(c).unwrap();
            out.push(ch);
            proof {
                char_u32_cast(ch, c);
                assert(out@ =~= decode_utf8(bytes@.subrange(0, i as int)) + seq![c as char]);
            }
            i += 4;
        } else {
            // A continuation byte in leading position, or a byte no
            // encoding uses.
            proof {
                assert(!valid_first_scalar(suffix));
                lemma_invalid_at(bytes@, i as int);
            }
            return None;
        }
    }
    proof {
        assert(bytes@.subrange(0, n as int) =~= bytes@);
    }
    Some(out)
}

/// Appending one more character to a prefix appends that character's
/// encoding to the prefix's encoding.
proof fn lemma_encode_utf8_snoc(s: Seq<char>, k: int)
    requires
        0 <= k < s.len(),
    ensures
        encode_utf8(s.take(k + 1)) == encode_utf8(s.take(k)) + encode_scalar(s[k] as u32),
    decreases k,
{
    let t = s.take(k + 1);
    if k == 0 {
        assert(t.drop_first() =~= s.take(0));
        assert(encode_utf8(s.take(0)) =~= Seq::<u8>::empty());
        assert(encode_utf8(s.take(1)) =~= Seq::<u8>::empty() + encode_scalar(s[0] as u32));
    } else {
        let sd = s.drop_first();
        lemma_encode_utf8_snoc(sd, k - 1);
        assert(t.drop_first() =~= sd.take(k));
        assert(s.take(k).drop_first() =~= sd.take(k - 1));
        assert(sd[k - 1] == s[k]);
        assert(encode_utf8(t) == encode_scalar(s[0] as u32) + encode_utf8(sd.take(k)));
        assert(encode_utf8(s.take(k)) == encode_scalar(s[0] as u32) + encode_utf8(sd.take(k - 1)));
        assert(encode_scalar(s[0] as u32) + (encode_utf8(sd.take(k - 1)) + encode_scalar(
            s[k] as u32,
        )) =~= (encode_scalar(s[0] as u32) + encode_utf8(sd.take(k - 1))) + encode_scalar(
            s[k] as u32,
        ));
    }
}

/// Encodes a character sequence as UTF-8 bytes, matching `encode_utf8`
/// byte for byte.
pub fn encode_utf8_chars(text: &Vec<char>) -> (r: Vec<u8>)
    ensures
        r@ == encode_utf8(text@),
{
    let n = text.len();
    let mut out: Vec<u8> = Vec::new();
    let mut k: usize = 0;
    while k < n
        invariant
            n == text@.len(),
            k <= n,
            out@ == encode_utf8(text@.take(k as int)),
        decreases n - k,
    {
        let ghost out_before = out@;
        let ch = text[k];
        let v = ch as u32;
        proof {
            char_is_scalar(ch);
        }
        if v < 0x80 {
            out.push((v & 0x7f) as u8);
            proof {
                assert(out@ =~= out_before + encode_scalar(v));
            }
        } else if v < 0x800 {
            out.push(0xc0 | ((v >> 6) & 0x1f) as u8);
            out.push(0x80 | (v & 0x3f) as u8);
            proof {
                assert(out@ =~= out_before + encode_scalar(v));
            }
        } else if v < 0x10000 {
            out.push(0xe0 | ((v >> 12) & 0x0f) as u8);
            out.push(0x80 | ((v >> 6) & 0x3f) as u8);
            out.push(0x80 | (v & 0x3f) as u8);
            proof {
                assert(out@ =~= out_before + encode_scalar(v));
            }
        } else {
            out.push(0xf0 | ((v >> 18) & 0x7) as u8);
            out.push(0x80 | ((v >> 12) & 0x3f) as u8);
            out.push(0x80 | ((v >> 6) & 0x3f) as u8);
            out.push(0x80 | (v & 0x3f) as u8);
            proof {
                assert(out@ =~= out_before + encode_scalar(v));
            }
        }
        proof {
            lemma_encode_utf8_snoc(text@, k as int);
        }
        k += 1;
    }
    proof {
        assert(text@.take(n as int) =~= text@);
    }
    out
}

/// No byte of a nonzero scalar's encoding is null: a one-byte encoding is
/// the nonzero value itself, and every byte of a wider encoding has its
/// high bit set.
proof fn lemma_encode_scalar_no_nul(c: u32)
    requires
        is_scalar(c),
        c != 0,
    ensures
        forall|j: int| 0 <= j < encode_scalar(c).len() ==> encode_scalar(c)[j] != 0,
{
    if has_width_1_encoding(c) {
        assert((c & 0x7f) as u8 != 0) by (bit_vector)
            requires
                c <= 0x7f && c != 0,
        ;
    } else {
        assert(forall|y: u32| (0xc0 | (y & 0x1f) as u8) != 0) by (bit_vector);
        assert(forall|y: u32| (0xe0 | (y & 0x0f) as u8) != 0) by (bit_vector);
        assert(forall|y: u32| (0xf0 | (y & 0x7) as u8) != 0) by (bit_vector);
        assert(forall|y: u32| (0x80 | (y & 0x3f) as u8) != 0) by (bit_vector);
    }
}

/// The encoding of null-free text contains no null byte.
proof fn lemma_encode_no_nul(s: Seq<char>)
    requires
        forall|t: int| 0 <= t < s.len() ==> (#[trigger] s[t]) as u32 != 0,
    ensures
        forall|j: int| 0 <= j < encode_utf8(s).len() ==> encode_utf8(s)[j] != 0,
    decreases s.len(),
{
    if s.len() > 0 {
        char_is_scalar(s[0]);
        lemma_encode_scalar_no_nul(s[0] as u32);
        assert(forall|t: int|
            0 <= t < s.drop_first().len() ==> (#[trigger] s.drop_first()[t]) as u32 != 0);
        lemma_encode_no_nul(s.drop_first());
        let head = encode_scalar(s[0] as u32);
        let rest = encode_utf8(s.drop_first());
        assert(forall|j: int|
            0 <= j < encode_utf8(s).len() ==> encode_utf8(s)[j] == (head + rest)[j]);
    }
}

/// The raw field that stores the given text: its UTF-8 encoding followed by
/// the terminating null byte.
pub open spec fn label_field(text: Seq<char>) -> Seq<u8> {
    encode_utf8(text).push(0)
}

/// Writes text into a fresh raw label field: the UTF-8 encoding of the
/// characters, null-terminated.
pub fn encode_label(text: &Vec<char>) -> (r: Vec<u8>)
    ensures
        r@ == label_field(text@),
{
    let mut out = encode_utf8_chars(text);
    out.push(0);
    out
}

/// Reads the bytes of a raw field before its first null byte, or `None`
/// when the field is unterminated.
pub fn label_prefix(field: &Vec<u8>) -> (r: Option<Vec<u8>>)
    ensures
        r is Some <==> first_nul(field@) is Some,
        r matches Some(v) ==> v@ == label_bytes(field@),
{
    match find_nul(field) {
        None => None,
        Some(p) => {
            let mut prefix: Vec<u8> = Vec::new();
            let mut j: usize = 0;
            while j < p
                invariant
                    j <= p,
                    p < field@.len(),
                    prefix@ == field@.subrange(0, j as int),
                decreases p - j,
            {
                prefix.push(field[j]);
                proof {
                    assert(prefix@ =~= field@.subrange(0, j + 1));
                }
                j += 1;
            }
            proof {
                assert(prefix@ =~= label_bytes(field@));
            }
            Some(prefix)
        },
    }
}

/// Converts a raw label field to text: the bytes before the first null
/// byte, decoded as UTF-8.  A field with no terminator and a field whose
/// bytes are not a valid encoding fail with distinct errors.
pub fn label_to_text(field: &Vec<u8>) -> (r: Result<Vec<char>, LabelError>)
    ensures
        r is Ok <==> (first_nul(field@) is Some && valid_utf8(label_bytes(field@))),
        r matches Ok(v) ==> v@ == decode_utf8(label_bytes(field@)),
        r == Err::<Vec<char>, LabelError>(LabelError::Unterminated) <==> first_nul(field@) is None,
        r == Err::<Vec<char>, LabelError>(LabelError::InvalidEncoding) <==> (first_nul(field@)
            is Some && !valid_utf8(label_bytes(field@))),
{
    match label_prefix(field) {
        None => Err(LabelError::Unterminated),
        Some(prefix) => match decode_utf8_bytes(&prefix) {
            None => Err(LabelError::InvalidEncoding),
            Some(v) => Ok(v),
        },
    }
}

/// Law: a label field written from null-free text reads back as exactly
/// that text.  The terminator lands right after the encoding, the bytes
/// before it are the valid encoding of the text, and decoding them yields
/// the original characters.
pub proof fn lemma_label_round_trip(text: Seq<char>)
    requires
        forall|t: int| 0 <= t < text.len() ==> (#[trigger] text[t]) as u32 != 0,
    ensures
        first_nul(label_field(text)) == Some(encode_utf8(text).len() as int),
        label_bytes(label_field(text)) == encode_utf8(text),
        valid_utf8(label_bytes(label_field(text))),
        decode_utf8(label_bytes(label_field(text))) == text,
{
    lemma_encode_no_nul(text);
    let f = label_field(text);
    lemma_first_nul_found(f, encode_utf8(text).len() as int);
    assert(label_bytes(f) =~= encode_utf8(text));
    encode_utf8_valid_utf8(text);
    encode_utf8_decode_utf8(text);
}

} // verus!
