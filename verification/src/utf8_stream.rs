//! Incremental, lossy UTF-8 decoding.
//!
//! A byte stream arrives in arbitrary chunks. A character split across two chunks is
//! held back until its remaining bytes arrive; a malformed sequence becomes one
//! U+FFFD and decoding resumes right after the bad bytes.

use vstd::prelude::*;
use vstd::utf8::*;

verus! {

/// The character that stands for undecodable bytes.
pub const REPLACEMENT: char = '\u{FFFD}';

/// What the front of a nonempty byte sequence holds.
pub enum Front {
    /// A complete character of this many bytes.
    Whole(nat),
    /// A malformed sequence of this many bytes.
    Malformed(nat),
    /// The beginning of a character whose remaining bytes are not there yet.
    Cut,
}

/// Whether `second` can follow `first` in a well-formed three-byte sequence: no
/// overlong encoding and no surrogate starts that way.
pub open spec fn second_of_three(first: u8, second: u8) -> bool {
    &&& is_continuation_byte(second)
    &&& first == 0xE0 ==> second >= 0xA0
    &&& first == 0xED ==> second <= 0x9F
}

/// Whether `second` can follow `first` in a well-formed four-byte sequence: no
/// overlong encoding and nothing above U+10FFFF starts that way.
pub open spec fn second_of_four(first: u8, second: u8) -> bool {
    &&& is_continuation_byte(second)
    &&& first == 0xF0 ==> second >= 0x90
    &&& first == 0xF4 ==> second <= 0x8F
}

/// Classifies the front of a nonempty byte sequence.
pub open spec fn front(b: Seq<u8>) -> Front {
    if b[0] <= 0x7F {
        Front::Whole(1)
    } else if 0xC2 <= b[0] <= 0xDF {
        if b.len() < 2 {
            Front::Cut
        } else if !is_continuation_byte(b[1]) {
            Front::Malformed(1)
        } else {
            Front::Whole(2)
        }
    } else if 0xE0 <= b[0] <= 0xEF {
        if b.len() < 2 {
            Front::Cut
        } else if !second_of_three(b[0], b[1]) {
            Front::Malformed(1)
        } else if b.len() < 3 {
            Front::Cut
        } else if !is_continuation_byte(b[2]) {
            Front::Malformed(2)
        } else {
            Front::Whole(3)
        }
    } else if 0xF0 <= b[0] <= 0xF4 {
        if b.len() < 2 {
            Front::Cut
        } else if !second_of_four(b[0], b[1]) {
            Front::Malformed(1)
        } else if b.len() < 3 {
            Front::Cut
        } else if !is_continuation_byte(b[2]) {
            Front::Malformed(2)
        } else if b.len() < 4 {
            Front::Cut
        } else if !is_continuation_byte(b[3]) {
            Front::Malformed(3)
        } else {
            Front::Whole(4)
        }
    } else {
        Front::Malformed(1)
    }
}

/// The characters that a byte sequence decodes to, up to a character cut off at its end.
pub open spec fn decoded(b: Seq<u8>) -> Seq<char>
    decreases b.len(),
{
    if b.len() == 0 {
        seq![]
    } else {
        match front(b) {
            Front::Whole(n) => seq![decode_first_codepoint(b) as char] + decoded(b.skip(n as int)),
            Front::Malformed(n) => seq![REPLACEMENT] + decoded(b.skip(n as int)),
            Front::Cut => seq![],
        }
    }
}

/// The bytes of the character cut off at the end of a byte sequence, if there is one.
pub open spec fn pending(b: Seq<u8>) -> Seq<u8>
    decreases b.len(),
{
    if b.len() == 0 {
        seq![]
    } else {
        match front(b) {
            Front::Whole(n) => pending(b.skip(n as int)),
            Front::Malformed(n) => pending(b.skip(n as int)),
            Front::Cut => b,
        }
    }
}

proof fn lemma_two(a: u8, b: u8)
    by (bit_vector)
    requires
        0xC2 <= a <= 0xDF,
        0x80 <= b <= 0xBF,
    ensures
        0x80 <= codepoint_width_2(a, b) <= 0x7FF,
{
}

proof fn lemma_two_overlong(a: u8, b: u8)
    by (bit_vector)
    requires
        0xC0 <= a <= 0xC1,
        0x80 <= b <= 0xBF,
    ensures
        codepoint_width_2(a, b) < 0x80,
{
}

proof fn lemma_three(a: u8, b: u8, c: u8)
    by (bit_vector)
    requires
        0xE0 <= a <= 0xEF,
        0x80 <= b <= 0xBF,
        0x80 <= c <= 0xBF,
    ensures
        codepoint_width_3(a, b, c) <= 0xFFFF,
        a == 0xE0 && b < 0xA0 <==> codepoint_width_3(a, b, c) < 0x800,
        a == 0xED && b > 0x9F <==> 0xD800 <= codepoint_width_3(a, b, c) <= 0xDFFF,
{
}

proof fn lemma_four(a: u8, b: u8, c: u8, d: u8)
    by (bit_vector)
    requires
        0xF0 <= a <= 0xF7,
        0x80 <= b <= 0xBF,
        0x80 <= c <= 0xBF,
        0x80 <= d <= 0xBF,
    ensures
        a == 0xF0 && b < 0x90 <==> codepoint_width_4(a, b, c, d) < 0x10000,
        a > 0xF4 || (a == 0xF4 && b > 0x8F) <==> codepoint_width_4(a, b, c, d) > 0x10FFFF,
{
}

/// A front is classified as whole exactly when it is a well-formed encoding of one
/// scalar value, and then by its length.
proof fn lemma_front_whole(b: Seq<u8>)
    requires
        b.len() > 0,
    ensures
        front(b) is Whole <==> valid_first_scalar(b),
        front(b) matches Front::Whole(n) ==> {
            &&& n == length_of_first_scalar(b)
            &&& is_scalar(decode_first_codepoint(b))
            &&& 1 <= n <= 4
            &&& n <= b.len()
        },
{
    if 0xC0 <= b[0] <= 0xDF && b.len() >= 2 && is_continuation_byte(b[1]) {
        if b[0] <= 0xC1 {
            lemma_two_overlong(b[0], b[1]);
        } else {
            lemma_two(b[0], b[1]);
        }
    }
    if 0xE0 <= b[0] <= 0xEF && b.len() >= 3 && is_continuation_byte(b[1])
        && is_continuation_byte(b[2]) {
        lemma_three(b[0], b[1], b[2]);
    }
    if 0xF0 <= b[0] <= 0xF7 && b.len() >= 4 && is_continuation_byte(b[1])
        && is_continuation_byte(b[2]) && is_continuation_byte(b[3]) {
        lemma_four(b[0], b[1], b[2], b[3]);
    }
    if b[0] <= 0x7F {
        let x = b[0];
        assert((x & 0x7F) <= 0x7F) by (bit_vector);
    }
}

/// More bytes behind it do not change a front that is already decided.
proof fn lemma_front_extends(a: Seq<u8>, b: Seq<u8>)
    requires
        a.len() > 0,
    ensures
        front(a) !is Cut ==> front(a + b) == front(a),
        front(a) is Whole ==> decode_first_codepoint(a + b) == decode_first_codepoint(a),
{
    lemma_front_whole(a);
    assert(forall|i: int| 0 <= i < a.len() ==> (a + b)[i] == a[i]);
}

/// At most three bytes are ever held back.
pub proof fn pending_is_short(b: Seq<u8>)
    ensures
        pending(b).len() <= 3,
        pending(b).len() <= b.len(),
    decreases b.len(),
{
    if b.len() > 0 {
        match front(b) {
            Front::Whole(n) => pending_is_short(b.skip(n as int)),
            Front::Malformed(n) => pending_is_short(b.skip(n as int)),
            Front::Cut => {},
        }
    }
}

/// What is held back is itself still undecided.
pub proof fn pending_is_stable(b: Seq<u8>)
    ensures
        pending(pending(b)) == pending(b),
        decoded(pending(b)) == Seq::<char>::empty(),
    decreases b.len(),
{
    if b.len() > 0 {
        match front(b) {
            Front::Whole(n) => pending_is_stable(b.skip(n as int)),
            Front::Malformed(n) => pending_is_stable(b.skip(n as int)),
            Front::Cut => {},
        }
    }
}

/// Decoding does not depend on where the stream is cut into chunks: decoding `a`, then
/// the bytes held back followed by `b`, gives what decoding `a` and `b` at once gives.
pub proof fn decoding_ignores_chunk_boundaries(a: Seq<u8>, b: Seq<u8>)
    ensures
        decoded(a + b) == decoded(a) + decoded(pending(a) + b),
        pending(a + b) == pending(pending(a) + b),
    decreases a.len(),
{
    if a.len() == 0 {
        assert(a + b =~= b);
        assert(pending(a) + b =~= b);
        assert(decoded(a) + decoded(b) =~= decoded(b));
    } else {
        lemma_front_extends(a, b);
        match front(a) {
            Front::Whole(n) => {
                lemma_front_whole(a);
                let t = a.skip(n as int);
                assert((a + b).skip(n as int) =~= t + b);
                decoding_ignores_chunk_boundaries(t, b);
                let c = decode_first_codepoint(a) as char;
                assert(seq![c] + (decoded(t) + decoded(pending(t) + b)) =~= (seq![c] + decoded(t))
                    + decoded(pending(t) + b));
            },
            Front::Malformed(n) => {
                let t = a.skip(n as int);
                assert((a + b).skip(n as int) =~= t + b);
                decoding_ignores_chunk_boundaries(t, b);
                assert(seq![REPLACEMENT] + (decoded(t) + decoded(pending(t) + b)) =~= (
                seq![REPLACEMENT] + decoded(t)) + decoded(pending(t) + b));
            },
            Front::Cut => {
                assert(decoded(a) + decoded(a + b) =~= decoded(a + b));
            },
        }
    }
}

/// Well-formed UTF-8 decodes to the text it encodes, and nothing is held back.
pub proof fn well_formed_text_decodes_exactly(b: Seq<u8>)
    requires
        valid_utf8(b),
    ensures
        decoded(b) == decode_utf8(b),
        pending(b) == Seq::<u8>::empty(),
    decreases b.len(),
{
    if b.len() > 0 {
        lemma_front_whole(b);
        let n = length_of_first_scalar(b);
        assert(pop_first_scalar(b) =~= b.skip(n));
        well_formed_text_decodes_exactly(b.skip(n));
    }
}

/// No byte decodes to more than one character.
pub proof fn decoded_is_no_longer(b: Seq<u8>)
    ensures
        decoded(b).len() + pending(b).len() <= b.len(),
    decreases b.len(),
{
    if b.len() > 0 {
        lemma_front_whole(b);
        match front(b) {
            Front::Whole(n) => decoded_is_no_longer(b.skip(n as int)),
            Front::Malformed(n) => decoded_is_no_longer(b.skip(n as int)),
            Front::Cut => {},
        }
    }
}

fn is_continuation(b: u8) -> (r: bool)
    ensures
        r == is_continuation_byte(b),
{
    0x80 <= b && b <= 0xBF
}

/// What the front of a byte slice decodes to, with the number of bytes it takes.
/// `None` stands for a character that is cut off.
fn decode_front(b: &[u8], at: usize) -> (r: Option<(char, usize)>)
    requires
        at < b.len(),
    ensures
        match front(b@.skip(at as int)) {
            Front::Whole(n) => r == Some(
                (decode_first_codepoint(b@.skip(at as int)) as char, n as usize),
            ) && 1 <= n <= b.len() - at,
            Front::Malformed(n) => r == Some((REPLACEMENT, n as usize)) && 1 <= n <= b.len() - at,
            Front::Cut => r is None,
        },
{
    let ghost t = b@.skip(at as int);
    proof {
        lemma_front_whole(t);
        assert(t[0] == b@[at as int]);
        if t.len() > 1 {
            assert(t[1] == b@[at + 1]);
        }
        if t.len() > 2 {
            assert(t[2] == b@[at + 2]);
        }
        if t.len() > 3 {
            assert(t[3] == b@[at + 3]);
        }
    }
    let have: usize = b.len() - at;
    let first: u8 = b[at];
    let mut size: usize = 1;
    let mut code: u32 = (first & 0x7F) as u32;
    if first <= 0x7F {
    } else if 0xC2 <= first && first <= 0xDF {
        if have < 2 {
            return None;
        }
        if !is_continuation(b[at + 1]) {
            return Some((REPLACEMENT, 1));
        }
        size = 2;
        code = (((first & 0x1F) as u32) << 6) | ((b[at + 1] & 0x3F) as u32);
    } else if 0xE0 <= first && first <= 0xEF {
        if have < 2 {
            return None;
        }
        let second: u8 = b[at + 1];
        if !is_continuation(second) || (first == 0xE0 && second < 0xA0) || (first == 0xED && second
            > 0x9F) {
            return Some((REPLACEMENT, 1));
        }
        if have < 3 {
            return None;
        }
        if !is_continuation(b[at + 2]) {
            return Some((REPLACEMENT, 2));
        }
        size = 3;
        code = (((first & 0x0F) as u32) << 12) | (((second & 0x3F) as u32) << 6) | ((b[at + 2]
            & 0x3F) as u32);
    } else if 0xF0 <= first && first <= 0xF4 {
        if have < 2 {
            return None;
        }
        let second: u8 = b[at + 1];
        if !is_continuation(second) || (first == 0xF0 && second < 0x90) || (first == 0xF4 && second
            > 0x8F) {
            return Some((REPLACEMENT, 1));
        }
        if have < 3 {
            return None;
        }
        if !is_continuation(b[at + 2]) {
            return Some((REPLACEMENT, 2));
        }
        if have < 4 {
            return None;
        }
        if !is_continuation(b[at + 3]) {
            return Some((REPLACEMENT, 3));
        }
        size = 4;
        code = (((first & 0x07) as u32) << 18) | (((second & 0x3F) as u32) << 12) | (((b[at + 2]
            & 0x3F) as u32) << 6) | ((b[at + 3] & 0x3F) as u32);
    } else {
        return Some((REPLACEMENT, 1));
    }
    assert(code == decode_first_codepoint(t));
    match char::from_u32(code) {
        Some(c) => {
            proof {
                char_u32_cast(c, code);
            }
            Some((c, size))
        },
        None => None,
    }
}

/// Decodes as much of `b` as is decided, appending it to `out`. Returns how many bytes
/// were consumed; the rest is the character cut off at the end.
pub fn decode_into(b: &[u8], out: &mut String) -> (consumed: usize)
    ensures
        consumed <= b.len(),
        final(out)@ == old(out)@ + decoded(b@),
        b@.skip(consumed as int) == pending(b@),
        b.len() - consumed <= 3,
{
    let mut at: usize = 0;
    assert(b@.skip(0) =~= b@);
    while at < b.len()
        invariant_except_break
            at <= b.len(),
            out@ + decoded(b@.skip(at as int)) == old(out)@ + decoded(b@),
            pending(b@.skip(at as int)) == pending(b@),
        ensures
            at <= b.len(),
            out@ == old(out)@ + decoded(b@),
            b@.skip(at as int) == pending(b@),
        decreases b.len() - at,
    {
        match decode_front(b, at) {
            Some((c, n)) => {
                let ghost before = out@;
                let ghost t = b@.skip(at as int);
                out.push(c);
                proof {
                    assert(b@.skip(at + n) =~= t.skip(n as int));
                    assert(decoded(t) == seq![c] + decoded(t.skip(n as int)));
                    assert(out@ + decoded(t.skip(n as int)) =~= before + decoded(t));
                }
                at += n;
            },
            None => {
                proof {
                    assert(out@ + decoded(b@.skip(at as int)) =~= out@);
                }
                break;
            },
        }
        if at == b.len() {
            proof {
                assert(b@.skip(at as int) =~= Seq::<u8>::empty());
                assert(out@ + decoded(b@.skip(at as int)) =~= out@);
            }
        }
    }
    proof {
        pending_is_short(b@);
    }
    at
}

/// The text of some bytes taken as a whole: what is no text, an unfinished character at
/// the end included, is replaced.
pub open spec fn lossy_text(b: Seq<u8>) -> Seq<char> {
    if pending(b).len() > 0 {
        decoded(b).push(REPLACEMENT)
    } else {
        decoded(b)
    }
}

/// Decodes some bytes taken as a whole.
pub fn lossy(b: &[u8]) -> (r: String)
    ensures
        r@ == lossy_text(b@),
{
    let mut out = String::new();
    let consumed: usize = decode_into(b, &mut out);
    if consumed < b.len() {
        out.push(REPLACEMENT);
    }
    assert(out@ =~= lossy_text(b@));
    out
}

} // verus!
