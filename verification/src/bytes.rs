//! Bytes that should be UTF-8 and may not be: strict and lossy decoding, and cuts at
//! character boundaries.

use vstd::prelude::*;
use vstd::slice::slice_subrange;
use vstd::utf8::*;

use crate::text::len_of;

verus! {

/// U+FFFD, which stands for what could not be decoded.
pub open spec fn replacement() -> char {
    '\u{FFFD}'
}

/// The length of the longest valid prefix of `b`.
pub open spec fn valid_up_to(b: Seq<u8>) -> nat
    decreases b.len(),
{
    if b.len() > 0 && valid_first_scalar(b) {
        length_of_first_scalar(b) as nat + valid_up_to(pop_first_scalar(b))
    } else {
        0
    }
}

/// How many bytes a character has that begins with `a`; 0 where none does.
pub open spec fn width_of(a: u8) -> nat {
    if a <= 0x7f {
        1
    } else if 0xc2 <= a <= 0xdf {
        2
    } else if 0xe0 <= a <= 0xef {
        3
    } else if 0xf0 <= a <= 0xf4 {
        4
    } else {
        0
    }
}

/// Whether `b` can be the second byte of a character that begins with `a`: no character is written
/// longer than it need be, is half of a pair, or lies beyond the last one.
pub open spec fn second_fits(a: u8, b: u8) -> bool {
    if a == 0xe0 {
        0xa0 <= b <= 0xbf
    } else if a == 0xed {
        0x80 <= b <= 0x9f
    } else if a == 0xf0 {
        0x90 <= b <= 0xbf
    } else if a == 0xf4 {
        0x80 <= b <= 0x8f
    } else {
        0x80 <= b <= 0xbf
    }
}

/// How many bytes at the beginning of `rest`, where no character stands, are invalid together: as
/// many as could begin one, and at least one byte. Nothing where all of `rest` could.
pub open spec fn invalid_len(rest: Seq<u8>) -> Option<usize> {
    if width_of(rest[0]) == 0 {
        Some(1)
    } else if rest.len() < 2 {
        None
    } else if !second_fits(rest[0], rest[1]) {
        Some(1)
    } else if rest.len() < 3 {
        None
    } else if !is_continuation_byte(rest[2]) {
        Some(2)
    } else if rest.len() < 4 {
        None
    } else {
        Some(3)
    }
}

/// The length of the first invalid sequence of `b`, or nothing where `b` ends inside a character.
pub open spec fn utf8_error_len(b: Seq<u8>) -> Option<usize> {
    invalid_len(b.skip(valid_up_to(b) as int))
}

/// Whether `b` begins with a character, by its bytes.
pub open spec fn begins_with_character(b: Seq<u8>) -> bool {
    let w = width_of(b[0]) as int;
    &&& b.len() > 0
    &&& 1 <= w <= b.len()
    &&& w >= 2 ==> second_fits(b[0], b[1])
    &&& w >= 3 ==> is_continuation_byte(b[2])
    &&& w >= 4 ==> is_continuation_byte(b[3])
}

proof fn two_bytes(a: u8, b: u8)
    requires
        0xc0 <= a <= 0xdf,
        0x80 <= b <= 0xbf,
    ensures
        codepoint_width_2(a, b) <= 0x7ff,
        0x80 <= codepoint_width_2(a, b) <==> 0xc2 <= a,
{
    assert((((a & 0x1f) as u32) << 6u32) | ((b & 0x3f) as u32) <= 0x7ffu32) by (bit_vector);
    assert((((a & 0x1f) as u32) << 6u32) | ((b & 0x3f) as u32) >= 0x80u32 <==> 0xc2u8 <= a)
        by (bit_vector)
        requires
            0xc0u8 <= a <= 0xdfu8,
            0x80u8 <= b <= 0xbfu8,
    ;
}

proof fn three_bytes(a: u8, b: u8, c: u8)
    requires
        0xe0 <= a <= 0xef,
        0x80 <= b <= 0xbf,
        0x80 <= c <= 0xbf,
    ensures
        0x800 <= codepoint_width_3(a, b, c) && !(0xd800 <= codepoint_width_3(a, b, c) <= 0xdfff)
            <==> second_fits(a, b),
{
    let v = (((a & 0x0f) as u32) << 12u32) | (((b & 0x3f) as u32) << 6u32) | ((c & 0x3f) as u32);
    assert(v < 0x800u32 <==> (a == 0xe0u8 && b < 0xa0u8)) by (bit_vector)
        requires
            v == (((a & 0x0f) as u32) << 12u32) | (((b & 0x3f) as u32) << 6u32) | ((c & 0x3f) as u32),
            0xe0u8 <= a <= 0xefu8,
            0x80u8 <= b <= 0xbfu8,
            0x80u8 <= c <= 0xbfu8,
    ;
    assert((0xd800u32 <= v && v <= 0xdfffu32) <==> (a == 0xedu8 && b >= 0xa0u8)) by (bit_vector)
        requires
            v == (((a & 0x0f) as u32) << 12u32) | (((b & 0x3f) as u32) << 6u32) | ((c & 0x3f) as u32),
            0xe0u8 <= a <= 0xefu8,
            0x80u8 <= b <= 0xbfu8,
            0x80u8 <= c <= 0xbfu8,
    ;
}

proof fn four_bytes(a: u8, b: u8, c: u8, d: u8)
    requires
        0xf0 <= a <= 0xf7,
        0x80 <= b <= 0xbf,
        0x80 <= c <= 0xbf,
        0x80 <= d <= 0xbf,
    ensures
        0x10000 <= codepoint_width_4(a, b, c, d) <= 0x10ffff <==> a <= 0xf4 && second_fits(a, b),
{
    let v = (((a & 0x07) as u32) << 18u32) | (((b & 0x3f) as u32) << 12u32) | (((c & 0x3f) as u32)
        << 6u32) | ((d & 0x3f) as u32);
    assert(v < 0x10000u32 <==> (a == 0xf0u8 && b < 0x90u8)) by (bit_vector)
        requires
            v == (((a & 0x07) as u32) << 18u32) | (((b & 0x3f) as u32) << 12u32) | (((c & 0x3f) as u32)
                << 6u32) | ((d & 0x3f) as u32),
            0xf0u8 <= a <= 0xf7u8,
            0x80u8 <= b <= 0xbfu8,
            0x80u8 <= c <= 0xbfu8,
            0x80u8 <= d <= 0xbfu8,
    ;
    assert(v > 0x10ffffu32 <==> (a > 0xf4u8 || (a == 0xf4u8 && b > 0x8fu8))) by (bit_vector)
        requires
            v == (((a & 0x07) as u32) << 18u32) | (((b & 0x3f) as u32) << 12u32) | (((c & 0x3f) as u32)
                << 6u32) | ((d & 0x3f) as u32),
            0xf0u8 <= a <= 0xf7u8,
            0x80u8 <= b <= 0xbfu8,
            0x80u8 <= c <= 0xbfu8,
            0x80u8 <= d <= 0xbfu8,
    ;
}

proof fn one_byte(a: u8)
    requires
        a <= 0x7f,
    ensures
        codepoint_width_1(a) <= 0x7f,
{
    assert(((a & 0x7f) as u32) <= 0x7fu32) by (bit_vector);
}

proof fn character_by_its_bytes(b: Seq<u8>)
    requires
        b.len() > 0,
    ensures
        valid_first_scalar(b) <==> begins_with_character(b),
        valid_first_scalar(b) ==> length_of_first_scalar(b) == width_of(b[0]),
{
    if b[0] <= 0x7f {
        one_byte(b[0]);
    } else if b.len() >= 2 && is_leading_byte_width_2(b[0]) && is_continuation_byte(b[1]) {
        two_bytes(b[0], b[1]);
    } else if b.len() >= 3 && is_leading_byte_width_3(b[0]) && is_continuation_byte(b[1])
        && is_continuation_byte(b[2]) {
        three_bytes(b[0], b[1], b[2]);
    } else if b.len() >= 4 && is_leading_byte_width_4(b[0]) && is_continuation_byte(b[1])
        && is_continuation_byte(b[2]) && is_continuation_byte(b[3]) {
        four_bytes(b[0], b[1], b[2], b[3]);
    }
}

/// An error without a length means that more bytes can make `b` valid, and one with a length that
/// none can.
pub proof fn open_ends_can_be_completed(b: Seq<u8>)
    requires
        !valid_utf8(b),
    ensures
        utf8_error_len(b) is None <==> completable(b),
{
    valid_prefix(b);
    let v = valid_up_to(b) as int;
    let rest = b.skip(v);
    rest_begins_with_none(b);
    character_by_its_bytes(rest);
    if utf8_error_len(b) is None {
        let w = width_of(rest[0]);
        let second: u8 = if rest[0] == 0xe0 {
            0xa0
        } else if rest[0] == 0xf0 {
            0x90
        } else {
            0x80
        };
        let more: Seq<u8> = if rest.len() == 1 {
            if w == 2 {
                seq![second]
            } else if w == 3 {
                seq![second, 0x80]
            } else {
                seq![second, 0x80, 0x80]
            }
        } else if rest.len() == 2 {
            if w == 3 {
                seq![0x80]
            } else {
                seq![0x80, 0x80]
            }
        } else {
            seq![0x80]
        };
        let whole = rest + more;
        assert(whole[0] == rest[0]);
        assert(begins_with_character(whole));
        character_by_its_bytes(whole);
        assert(pop_first_scalar(whole).len() == 0);
        assert(valid_utf8(pop_first_scalar(whole)));
        assert(valid_utf8(whole));
        assert((b + more).take(v) =~= b.take(v));
        assert((b + more).skip(v) =~= whole);
        decoding_goes_on(b + more, v);
        valid_prefix(whole);
        valid_prefix(b + more);
        assert(completable(b));
    }
    if completable(b) {
        let more = choose|more: Seq<u8>| valid_utf8(#[trigger] (b + more));
        prefix_and_rest_decode_to_the_whole(b, more);
        let whole = rest + more;
        assert((b + more).skip(v) =~= whole);
        assert(whole.len() > 0);
        character_by_its_bytes(whole);
        assert(whole[0] == rest[0]);
        assert(rest.len() > 1 ==> whole[1] == rest[1]);
        assert(rest.len() > 2 ==> whole[2] == rest[2]);
        assert(rest.len() > 3 ==> whole[3] == rest[3]);
    }
}

proof fn rest_begins_with_none(b: Seq<u8>)
    requires
        !valid_utf8(b),
    ensures
        valid_up_to(b) < b.len(),
        !valid_first_scalar(b.skip(valid_up_to(b) as int)),
    decreases b.len(),
{
    valid_prefix(b);
    if valid_first_scalar(b) {
        let rest = pop_first_scalar(b);
        rest_begins_with_none(rest);
        assert(rest.skip(valid_up_to(rest) as int) =~= b.skip(valid_up_to(b) as int));
    } else {
        assert(b.skip(0) =~= b);
    }
}

/// An invalid sequence is not empty, and lies within the bytes.
pub proof fn errors_lie_within(b: Seq<u8>)
    requires
        !valid_utf8(b),
    ensures
        utf8_error_len(b) matches Some(k) ==> 1 <= k && valid_up_to(b) + k <= b.len(),
{
    valid_prefix(b);
}

/// Whether more bytes can make `b` valid.
pub open spec fn completable(b: Seq<u8>) -> bool {
    exists|more: Seq<u8>| valid_utf8(#[trigger] (b + more))
}

/// `std::str::from_utf8`, its error taken apart into `valid_up_to()` and `error_len()`.
///
/// Claimed of it: it accepts exactly the valid encodings and yields their characters;
/// `valid_up_to` is the length of the longest valid prefix; and an invalid sequence is as long as
/// what could still begin a character, where the input does not end inside it.
#[verifier::external_body]
pub(crate) fn from_utf8(b: &[u8]) -> (r: Result<String, (usize, Option<usize>)>)
    ensures
        r is Ok <==> valid_utf8(b@),
        r matches Ok(s) ==> s@ == decode_utf8(b@),
        r matches Err((v, n)) ==> {
            &&& v == valid_up_to(b@)
            &&& n == utf8_error_len(b@)
        },
{
    match std::str::from_utf8(b) {
        Ok(s) => Ok(s.to_string()),
        Err(e) => Err((e.valid_up_to(), e.error_len())),
    }
}

/// The longest valid prefix is valid, lies within the bytes, and is all of them exactly
/// when they are valid.
pub proof fn valid_prefix(b: Seq<u8>)
    ensures
        valid_up_to(b) <= b.len(),
        valid_utf8(b.take(valid_up_to(b) as int)),
        valid_utf8(b) <==> valid_up_to(b) == b.len(),
    decreases b.len(),
{
    if b.len() > 0 && valid_first_scalar(b) {
        let rest = pop_first_scalar(b);
        let n = length_of_first_scalar(b);
        valid_prefix(rest);
        let t = b.take(valid_up_to(b) as int);
        assert(t.len() >= n);
        assert(valid_first_scalar(t));
        assert(length_of_first_scalar(t) == n);
        assert(pop_first_scalar(t) =~= rest.take(valid_up_to(rest) as int));
    } else {
        assert(b.take(0).len() == 0);
    }
}

/// In valid bytes, what follows the longest valid prefix of a beginning is valid, and the two
/// decode to the whole.
pub proof fn prefix_and_rest_decode_to_the_whole(r: Seq<u8>, more: Seq<u8>)
    requires
        valid_utf8(r + more),
    ensures
        valid_up_to(r) <= r.len(),
        valid_utf8(r.take(valid_up_to(r) as int)),
        valid_utf8((r + more).skip(valid_up_to(r) as int)),
        decode_utf8(r + more) == decode_utf8(r.take(valid_up_to(r) as int)) + decode_utf8(
            (r + more).skip(valid_up_to(r) as int),
        ),
    decreases r.len(),
{
    let w = r + more;
    valid_prefix(r);
    if r.len() > 0 && valid_first_scalar(r) {
        let n = length_of_first_scalar(r);
        let rest = pop_first_scalar(r);
        let v = valid_up_to(r) as int;
        assert(length_of_first_scalar(w) == n);
        assert(pop_first_scalar(w) =~= rest + more);
        prefix_and_rest_decode_to_the_whole(rest, more);
        valid_prefix(rest);
        let head = r.take(v);
        assert(pop_first_scalar(head) =~= rest.take(valid_up_to(rest) as int));
        assert((rest + more).skip(valid_up_to(rest) as int) =~= w.skip(v));
        assert(valid_first_scalar(head));
        assert(length_of_first_scalar(head) == n);
        assert(decode_first_scalar(head) == decode_first_scalar(w));
        assert(decode_utf8(w) =~= decode_utf8(head) + decode_utf8(w.skip(v)));
    } else {
        assert(w.skip(0) =~= w);
        assert(decode_utf8(r.take(0)) =~= Seq::empty());
        assert(decode_utf8(w) =~= decode_utf8(r.take(0)) + decode_utf8(w.skip(0)));
    }
}

/// All the bytes of some chunks.
pub open spec fn printed(chunks: Seq<Seq<u8>>) -> Seq<u8>
    decreases chunks.len(),
{
    if chunks.len() == 0 {
        Seq::empty()
    } else {
        printed(chunks.drop_last()) + chunks.last()
    }
}

/// Decoding goes on from any point where it could have ended: what is valid of `b` is what is valid
/// of its beginning and of the rest, and so is the text.
pub proof fn decoding_goes_on(b: Seq<u8>, v: int)
    requires
        0 <= v <= b.len(),
        valid_utf8(b.take(v)),
    ensures
        valid_up_to(b) == v + valid_up_to(b.skip(v)),
        decode_utf8(b.take(valid_up_to(b) as int)) == decode_utf8(b.take(v)) + decode_utf8(
            b.skip(v).take(valid_up_to(b.skip(v)) as int),
        ),
    decreases v,
{
    valid_prefix(b);
    valid_prefix(b.skip(v));
    if v == 0 {
        assert(b.skip(0) =~= b);
        assert(b.take(0) =~= Seq::empty());
        assert(decode_utf8(b.take(0)) =~= Seq::empty());
        assert(decode_utf8(b.take(valid_up_to(b) as int)) =~= decode_utf8(b.take(0)) + decode_utf8(
            b.skip(0).take(valid_up_to(b.skip(0)) as int),
        ));
    } else {
        let t = b.take(v);
        assert(valid_first_scalar(t));
        let n = length_of_first_scalar(t);
        assert(valid_first_scalar(b));
        assert(length_of_first_scalar(b) == n);
        let rest = pop_first_scalar(b);
        assert(pop_first_scalar(t) =~= rest.take(v - n));
        assert(rest.skip(v - n) =~= b.skip(v));
        decoding_goes_on(rest, v - n);
        let w = b.take(valid_up_to(b) as int);
        assert(valid_first_scalar(w));
        assert(length_of_first_scalar(w) == n);
        assert(pop_first_scalar(w) =~= rest.take(valid_up_to(rest) as int));
        assert(decode_first_scalar(w) == decode_first_scalar(t));
        assert(decode_utf8(w) =~= decode_utf8(t) + decode_utf8(
            b.skip(v).take(valid_up_to(b.skip(v)) as int),
        ));
    }
}

/// `b` decoded with every invalid sequence, and an incomplete character at the end,
/// replaced by U+FFFD.
pub open spec fn lossy_of(b: Seq<u8>) -> Seq<char>
    decreases b.len(),
{
    if valid_utf8(b) {
        decode_utf8(b)
    } else {
        let v = valid_up_to(b);
        let head = decode_utf8(b.take(v as int)).push(replacement());
        match utf8_error_len(b) {
            Some(k) => if 1 <= k && v + k <= b.len() {
                head + lossy_of(b.skip(v + k))
            } else {
                head
            },
            None => head,
        }
    }
}

/// The text of the valid bytes `b`.
pub fn decode(b: &[u8]) -> (r: String)
    requires
        valid_utf8(b@),
    ensures
        r@ == decode_utf8(b@),
{
    match from_utf8(b) {
        Ok(s) => s,
        Err(_) => String::new(),
    }
}

/// `b` decoded with every invalid sequence, and an incomplete character at the end,
/// replaced by U+FFFD.
pub fn lossy(b: &[u8]) -> (r: String)
    ensures
        r@ == lossy_of(b@),
{
    let mut out = String::new();
    let mut at: usize = 0;
    assert(b@.skip(0) =~= b@);
    loop
        invariant
            at <= b.len(),
            out@ + lossy_of(b@.skip(at as int)) == lossy_of(b@),
        decreases b.len() - at,
    {
        let rest = slice_subrange(b, at, b.len());
        assert(rest@ =~= b@.skip(at as int));
        match from_utf8(rest) {
            Ok(s) => {
                out.append(s.as_str());
                return out;
            },
            Err((v, n)) => {
                proof {
                    valid_prefix(rest@);
                }
                let head = decode(slice_subrange(rest, 0, v));
                assert(rest@.subrange(0, v as int) =~= rest@.take(v as int));
                let ghost o = out@;
                out.append(head.as_str());
                out.push('\u{FFFD}');
                assert(out@ =~= o + head@.push(replacement()));
                match n {
                    None => {
                        return out;
                    },
                    Some(k) => {
                        assert(rest@.skip(v + k) =~= b@.skip(at + v + k));
                        assert(out@ + lossy_of(rest@.skip(v + k)) =~= o + (head@.push(replacement())
                            + lossy_of(rest@.skip(v + k))));
                        at = at + v + k;
                    },
                }
            },
        }
    }
}

/// The largest character boundary of `s`, in bytes, that is at most `n`.
pub open spec fn floor_boundary(s: Seq<char>, n: int) -> int
    decreases n,
{
    if n <= 0 {
        0
    } else if n <= encode_utf8(s).len() && is_char_boundary(encode_utf8(s), n) {
        n
    } else {
        floor_boundary(s, n - 1)
    }
}

/// The smallest character boundary of `s`, in bytes, that is at least `n`.
pub open spec fn ceil_boundary(s: Seq<char>, n: int) -> int
    decreases encode_utf8(s).len() - n,
{
    if n >= encode_utf8(s).len() {
        encode_utf8(s).len() as int
    } else if is_char_boundary(encode_utf8(s), n) {
        n
    } else {
        ceil_boundary(s, n + 1)
    }
}

proof fn floor_is_boundary(s: Seq<char>, n: int)
    ensures
        0 <= floor_boundary(s, n) <= encode_utf8(s).len(),
        n >= 0 ==> floor_boundary(s, n) <= n,
        is_char_boundary(encode_utf8(s), floor_boundary(s, n)),
    decreases n,
{
    encode_utf8_valid_utf8(s);
    is_char_boundary_start_end_of_seq(encode_utf8(s));
    if n <= 0 {
    } else if n <= encode_utf8(s).len() && is_char_boundary(encode_utf8(s), n) {
    } else {
        floor_is_boundary(s, n - 1);
    }
}

proof fn ceil_is_boundary(s: Seq<char>, n: int)
    requires
        0 <= n,
    ensures
        0 <= ceil_boundary(s, n) <= encode_utf8(s).len(),
        n <= encode_utf8(s).len() ==> n <= ceil_boundary(s, n),
        is_char_boundary(encode_utf8(s), ceil_boundary(s, n)),
    decreases encode_utf8(s).len() - n,
{
    encode_utf8_valid_utf8(s);
    is_char_boundary_start_end_of_seq(encode_utf8(s));
    if n >= encode_utf8(s).len() {
    } else if is_char_boundary(encode_utf8(s), n) {
    } else {
        ceil_is_boundary(s, n + 1);
    }
}

/// The characters of `s` whose encoding lies in the first `n` bytes.
pub open spec fn cut(s: Seq<char>, n: int) -> Seq<char> {
    decode_utf8(encode_utf8(s).take(floor_boundary(s, n)))
}

/// The characters of `s` between two byte positions, which are moved outwards to the
/// nearest character boundaries.
pub open spec fn window(s: Seq<char>, from: int, to: int) -> Seq<char> {
    decode_utf8(encode_utf8(s).subrange(floor_boundary(s, from), ceil_boundary(s, to)))
}

/// A text is cut nowhere when it has at most `n` bytes.
pub proof fn short_text_is_not_cut(s: Seq<char>, n: int)
    requires
        encode_utf8(s).len() == n,
    ensures
        cut(s, n) == s,
{
    encode_utf8_valid_utf8(s);
    is_char_boundary_start_end_of_seq(encode_utf8(s));
    encode_utf8_decode_utf8(s);
    assert(encode_utf8(s).take(n) =~= encode_utf8(s));
}

/// A cut text has at most `n` bytes and is a prefix of the whole.
pub proof fn cut_is_short(s: Seq<char>, n: int)
    requires
        0 <= n,
    ensures
        encode_utf8(cut(s, n)).len() <= n,
        encode_utf8(cut(s, n)) == encode_utf8(s).take(floor_boundary(s, n)),
{
    floor_is_boundary(s, n);
    encode_utf8_valid_utf8(s);
    valid_utf8_split(encode_utf8(s), floor_boundary(s, n));
    assert(encode_utf8(s).take(floor_boundary(s, n)) =~= encode_utf8(s).subrange(
        0,
        floor_boundary(s, n),
    ));
    decode_utf8_encode_utf8(encode_utf8(s).take(floor_boundary(s, n)));
}

fn floor_at(s: &str, n: usize) -> (r: usize)
    ensures
        r == floor_boundary(s@, n as int),
{
    let len: usize = len_of(s);
    let mut k: usize = n;
    while k > 0 && !(k <= len && s.is_char_boundary(k))
        invariant
            len == encode_utf8(s@).len(),
            floor_boundary(s@, n as int) == floor_boundary(s@, k as int),
        decreases k,
    {
        k -= 1;
    }
    k
}

fn ceil_at(s: &str, n: usize) -> (r: usize)
    ensures
        r == ceil_boundary(s@, n as int),
{
    let len: usize = len_of(s);
    if n >= len {
        return len;
    }
    let mut k: usize = n;
    while k < len && !s.is_char_boundary(k)
        invariant
            k <= len,
            len == encode_utf8(s@).len(),
            ceil_boundary(s@, n as int) == ceil_boundary(s@, k as int),
        decreases len - k,
    {
        k += 1;
    }
    k
}

/// The characters of `s` whose encoding lies in the first `n` bytes.
pub fn cut_at(s: &str, n: usize) -> (r: String)
    ensures
        r@ == cut(s@, n as int),
{
    let k: usize = floor_at(s, n);
    proof {
        floor_is_boundary(s@, n as int);
        encode_utf8_valid_utf8(s@);
        valid_utf8_split(encode_utf8(s@), k as int);
    }
    let b = s.as_bytes();
    let t = slice_subrange(b, 0, k);
    assert(t@ =~= encode_utf8(s@).take(k as int));
    decode(t)
}

/// The characters of `s` between two byte positions, which are moved outwards to the
/// nearest character boundaries.
pub fn window_of(s: &str, from: usize, to: usize) -> (r: String)
    requires
        from <= to,
    ensures
        r@ == window(s@, from as int, to as int),
{
    let i: usize = floor_at(s, from);
    let j: usize = ceil_at(s, to);
    let ghost e = encode_utf8(s@);
    proof {
        floor_is_boundary(s@, from as int);
        ceil_is_boundary(s@, to as int);
        encode_utf8_valid_utf8(s@);
        window_is_valid(e, i as int, j as int);
    }
    let b = s.as_bytes();
    decode(slice_subrange(b, i, j))
}

/// The bytes between two boundaries of a valid encoding are valid.
pub proof fn window_is_valid(e: Seq<u8>, i: int, j: int)
    requires
        valid_utf8(e),
        0 <= i <= j <= e.len(),
        is_char_boundary(e, i),
        is_char_boundary(e, j),
    ensures
        valid_utf8(e.subrange(i, j)),
    decreases e.len(),
{
    valid_utf8_split(e, i);
    let t = e.subrange(i, e.len() as int);
    boundary_in_tail(e, i, j);
    valid_utf8_split(t, j - i);
    assert(t.subrange(0, j - i) =~= e.subrange(i, j));
}

proof fn boundary_in_tail(e: Seq<u8>, i: int, j: int)
    requires
        valid_utf8(e),
        0 <= i <= j <= e.len(),
        is_char_boundary(e, i),
        is_char_boundary(e, j),
    ensures
        is_char_boundary(e.subrange(i, e.len() as int), j - i),
{
    valid_utf8_split(e, i);
    let t = e.subrange(i, e.len() as int);
    if j == e.len() {
        is_char_boundary_start_end_of_seq(t);
    } else {
        is_char_boundary_iff_not_is_continuation_byte(e, j);
        is_char_boundary_iff_not_is_continuation_byte(t, j - i);
    }
}

/// A cut takes all that fits: no later place at which the text could be cut lies within the limit.
pub proof fn a_cut_takes_all_that_fits(s: Seq<char>, n: int, k: int)
    requires
        0 <= k <= n,
        k <= encode_utf8(s).len(),
        is_char_boundary(encode_utf8(s), k),
    ensures
        k <= encode_utf8(cut(s, n)).len(),
{
    cut_is_short(s, n);
    floor_is_boundary(s, n);
    floor_is_greatest(s, n, k);
}

proof fn floor_is_greatest(s: Seq<char>, n: int, k: int)
    requires
        0 <= k <= n,
        k <= encode_utf8(s).len(),
        is_char_boundary(encode_utf8(s), k),
    ensures
        k <= floor_boundary(s, n),
    decreases n,
{
    if n <= 0 {
    } else if n <= encode_utf8(s).len() && is_char_boundary(encode_utf8(s), n) {
    } else {
        floor_is_greatest(s, n - 1, k);
    }
}

/// A text that fits is not cut at all.
pub proof fn what_fits_is_not_cut(s: Seq<char>, n: int)
    requires
        encode_utf8(s).len() <= n,
    ensures
        cut(s, n) == s,
{
    let m = encode_utf8(s).len() as int;
    encode_utf8_valid_utf8(s);
    is_char_boundary_start_end_of_seq(encode_utf8(s));
    floor_is_greatest(s, n, m);
    floor_is_boundary(s, n);
    encode_utf8_decode_utf8(s);
    assert(encode_utf8(s).take(m) =~= encode_utf8(s));
}

/// A window holds all the bytes between its two ends, and of what is around them only the rest of
/// the characters that the ends lie in.
pub proof fn a_window_shows_what_is_between(s: Seq<char>, from: int, to: int)
    requires
        0 <= from <= to <= encode_utf8(s).len(),
    ensures
        ({
            let e = encode_utf8(s);
            let i = floor_boundary(s, from);
            let j = ceil_boundary(s, to);
            &&& 0 <= i <= from && to <= j <= e.len()
            &&& encode_utf8(window(s, from, to)) == e.subrange(i, j)
            &&& is_char_boundary(e, from) ==> i == from
            &&& is_char_boundary(e, to) ==> j == to
        }),
{
    let e = encode_utf8(s);
    let i = floor_boundary(s, from);
    let j = ceil_boundary(s, to);
    floor_is_boundary(s, from);
    ceil_is_boundary(s, to);
    encode_utf8_valid_utf8(s);
    window_is_valid(e, i, j);
    decode_utf8_encode_utf8(e.subrange(i, j));
    if is_char_boundary(e, from) {
        floor_is_greatest(s, from, from);
    }
    is_char_boundary_start_end_of_seq(e);
}

/// Text that is valid comes through as it is, whatever stands behind it.
pub proof fn valid_text_comes_through(a: Seq<u8>, b: Seq<u8>)
    requires
        valid_utf8(a),
    ensures
        lossy_of(a) == decode_utf8(a),
        lossy_of(a + b) == decode_utf8(a) + lossy_of(b),
{
    let w = a + b;
    let n = a.len() as int;
    assert(w.take(n) =~= a);
    assert(w.skip(n) =~= b);
    decoding_goes_on(w, n);
    valid_prefix(w);
    valid_prefix(b);
    let v = valid_up_to(b) as int;
    if valid_utf8(b) {
        assert(w.take(w.len() as int) =~= w);
        assert(b.take(b.len() as int) =~= b);
        assert(lossy_of(w) =~= decode_utf8(a) + lossy_of(b));
    } else {
        assert(w.skip(n + v) =~= b.skip(v));
        assert(utf8_error_len(w) == utf8_error_len(b));
        match utf8_error_len(b) {
            Some(k) => {
                assert(w.skip(n + v + k) =~= b.skip(v + k));
            },
            None => {},
        }
        assert(lossy_of(w) =~= decode_utf8(a) + lossy_of(b));
    }
}

} // verus!
