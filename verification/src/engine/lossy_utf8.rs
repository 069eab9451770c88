//! Lossy UTF-8 decoding as `std::str::from_utf8` reports it: each maximal
//! invalid subpart becomes U+FFFD, and a sequence cut off by the end of the
//! input is held back.
use vstd::prelude::*;
use vstd::utf8::*;

verus! {

broadcast use vstd::seq_lib::group_seq_properties;

/// How the bytes at the start of a buffer decode.
#[derive(Debug, Clone, Copy, PartialEq, Eq, Structural)]
pub enum Utf8Step {
    /// A well-formed character of this many bytes.
    Char(usize),
    /// An ill-formed sequence of this many bytes.
    Invalid(usize),
    /// A well-formed prefix of a character that the input ends inside.
    Incomplete,
}

/// The number of bytes a character starting with `b` takes, or 0 when `b`
/// cannot start a character.
pub open spec fn utf8_width(b: u8) -> int {
    if b < 0x80 {
        1
    } else if 0xc2 <= b <= 0xdf {
        2
    } else if 0xe0 <= b <= 0xef {
        3
    } else if 0xf0 <= b <= 0xf4 {
        4
    } else {
        0
    }
}

/// The second byte is allowed after the leading byte `b0`.
pub open spec fn second_byte_ok(b0: u8, b1: u8) -> bool {
    if b0 == 0xe0 {
        0xa0 <= b1 <= 0xbf
    } else if b0 == 0xed {
        0x80 <= b1 <= 0x9f
    } else if b0 == 0xf0 {
        0x90 <= b1 <= 0xbf
    } else if b0 == 0xf4 {
        0x80 <= b1 <= 0x8f
    } else {
        is_continuation_byte(b1)
    }
}

/// The decoding step at the start of a non-empty buffer.
pub open spec fn utf8_step(s: Seq<u8>) -> Utf8Step
    recommends
        s.len() > 0,
{
    let w = utf8_width(s[0]);
    if w == 1 {
        Utf8Step::Char(1)
    } else if w == 0 {
        Utf8Step::Invalid(1)
    } else if s.len() < 2 {
        Utf8Step::Incomplete
    } else if !second_byte_ok(s[0], s[1]) {
        Utf8Step::Invalid(1)
    } else if w == 2 {
        Utf8Step::Char(2)
    } else if s.len() < 3 {
        Utf8Step::Incomplete
    } else if !is_continuation_byte(s[2]) {
        Utf8Step::Invalid(2)
    } else if w == 3 {
        Utf8Step::Char(3)
    } else if s.len() < 4 {
        Utf8Step::Incomplete
    } else if !is_continuation_byte(s[3]) {
        Utf8Step::Invalid(3)
    } else {
        Utf8Step::Char(4)
    }
}

/// The UTF-8 encoding of U+FFFD.
pub open spec fn replacement_bytes() -> Seq<u8> {
    seq![0xefu8, 0xbfu8, 0xbdu8]
}

/// Decodes `s` lossily: returns the repaired bytes and the cut-off tail that
/// is held back for more input.
pub open spec fn lossy_scan(s: Seq<u8>) -> (Seq<u8>, Seq<u8>)
    decreases s.len(),
{
    if s.len() == 0 {
        (Seq::empty(), Seq::empty())
    } else {
        match utf8_step(s) {
            Utf8Step::Char(n) => if 1 <= n <= s.len() {
                let rest = lossy_scan(s.subrange(n as int, s.len() as int));
                (s.subrange(0, n as int) + rest.0, rest.1)
            } else {
                (Seq::empty(), s)
            },
            Utf8Step::Invalid(n) => if 1 <= n <= s.len() {
                let rest = lossy_scan(s.subrange(n as int, s.len() as int));
                (replacement_bytes() + rest.0, rest.1)
            } else {
                (Seq::empty(), s)
            },
            Utf8Step::Incomplete => (Seq::empty(), s),
        }
    }
}

pub proof fn lemma_step_bounds(s: Seq<u8>)
    requires
        s.len() > 0,
    ensures
        match utf8_step(s) {
            Utf8Step::Char(n) => 1 <= n <= 4 && n <= s.len(),
            Utf8Step::Invalid(n) => 1 <= n <= 3 && n <= s.len(),
            Utf8Step::Incomplete => 1 <= s.len() <= 3,
        },
{
}

proof fn lemma_width2(b0: u8, b1: u8)
    requires
        0xc2 <= b0 <= 0xdf,
        0x80 <= b1 <= 0xbf,
    ensures
        codepoint_width_2(b0, b1) >= 0x80,
        not_surrogate(codepoint_width_2(b0, b1)),
{
    assert(((((b0 & 0x1f) as u32) << 6) | ((b1 & 0x3f) as u32)) >= 0x80 && ((((b0 & 0x1f) as u32)
        << 6) | ((b1 & 0x3f) as u32)) < 0x800) by (bit_vector)
        requires
            0xc2 <= b0 <= 0xdf,
            0x80 <= b1 <= 0xbf,
    ;
}

proof fn lemma_width3(b0: u8, b1: u8, b2: u8)
    requires
        0xe0 <= b0 <= 0xef,
        second_byte_ok(b0, b1),
        0x80 <= b2 <= 0xbf,
    ensures
        codepoint_width_3(b0, b1, b2) >= 0x800,
        not_surrogate(codepoint_width_3(b0, b1, b2)),
{
    let ok1 = if b0 == 0xe0 {
        0xa0 <= b1 <= 0xbf
    } else if b0 == 0xed {
        0x80 <= b1 <= 0x9f
    } else {
        0x80 <= b1 <= 0xbf
    };
    assert(ok1);
    assert({
        let c = (((b0 & 0x0f) as u32) << 12) | (((b1 & 0x3f) as u32) << 6) | ((b2 & 0x3f) as u32);
        c >= 0x800 && !(0xd800 <= c <= 0xdfff)
    }) by (bit_vector)
        requires
            0xe0 <= b0 <= 0xef,
            b0 == 0xe0 ==> 0xa0 <= b1 <= 0xbf,
            b0 == 0xed ==> 0x80 <= b1 <= 0x9f,
            0x80 <= b1 <= 0xbf,
            0x80 <= b2 <= 0xbf,
    ;
}

proof fn lemma_width4(b0: u8, b1: u8, b2: u8, b3: u8)
    requires
        0xf0 <= b0 <= 0xf4,
        second_byte_ok(b0, b1),
        0x80 <= b2 <= 0xbf,
        0x80 <= b3 <= 0xbf,
    ensures
        0x10000 <= codepoint_width_4(b0, b1, b2, b3) <= 0x10ffff,
        not_surrogate(codepoint_width_4(b0, b1, b2, b3)),
{
    assert({
        let c = (((b0 & 0x07) as u32) << 18) | (((b1 & 0x3f) as u32) << 12) | (((b2 & 0x3f) as u32)
            << 6) | ((b3 & 0x3f) as u32);
        0x10000 <= c <= 0x10ffff
    }) by (bit_vector)
        requires
            0xf0 <= b0 <= 0xf4,
            b0 == 0xf0 ==> 0x90 <= b1 <= 0xbf,
            b0 == 0xf4 ==> 0x80 <= b1 <= 0x8f,
            0x80 <= b1 <= 0xbf,
            0x80 <= b2 <= 0xbf,
            0x80 <= b3 <= 0xbf,
    ;
}

/// A well-formed step is a well-formed UTF-8 character.
pub proof fn lemma_char_step_valid(s: Seq<u8>)
    requires
        s.len() > 0,
        utf8_step(s) matches Utf8Step::Char(_),
    ensures
        match utf8_step(s) {
            Utf8Step::Char(n) => valid_utf8(s.subrange(0, n as int)),
            _ => true,
        },
{
    let n = match utf8_step(s) {
        Utf8Step::Char(n) => n as int,
        _ => 0,
    };
    let c = s.subrange(0, n);
    let w = utf8_width(s[0]);
    if w == 2 {
        lemma_width2(s[0], s[1]);
    } else if w == 3 {
        lemma_width3(s[0], s[1], s[2]);
    } else if w == 4 {
        lemma_width4(s[0], s[1], s[2], s[3]);
    }
    assert(valid_first_scalar(c));
    assert(pop_first_scalar(c) =~= Seq::<u8>::empty());
    assert(valid_utf8(pop_first_scalar(c)));
}

pub proof fn lemma_replacement_valid()
    ensures
        valid_utf8(replacement_bytes()),
{
    let r = replacement_bytes();
    assert(((((0xefu8 & 0x0f) as u32) << 12) | (((0xbfu8 & 0x3f) as u32) << 6) | ((0xbdu8 & 0x3f) as u32)) == 0xfffd) by (bit_vector);
    assert(r[0] == 0xefu8 && r[1] == 0xbfu8 && r[2] == 0xbdu8);
    assert(valid_first_scalar(r));
    assert(pop_first_scalar(r) =~= Seq::<u8>::empty());
    assert(valid_utf8(Seq::<u8>::empty()));
    assert(valid_utf8(pop_first_scalar(r)));
}

/// The repaired bytes are well-formed UTF-8.
pub proof fn lemma_lossy_scan_valid(s: Seq<u8>)
    ensures
        valid_utf8(lossy_scan(s).0),
    decreases s.len(),
{
    if s.len() > 0 {
        lemma_step_bounds(s);
        match utf8_step(s) {
            Utf8Step::Char(n) => {
                let rest = s.subrange(n as int, s.len() as int);
                lemma_lossy_scan_valid(rest);
                lemma_char_step_valid(s);
                valid_utf8_concat(s.subrange(0, n as int), lossy_scan(rest).0);
            },
            Utf8Step::Invalid(n) => {
                let rest = s.subrange(n as int, s.len() as int);
                lemma_lossy_scan_valid(rest);
                lemma_replacement_valid();
                valid_utf8_concat(replacement_bytes(), lossy_scan(rest).0);
            },
            Utf8Step::Incomplete => {
                assert(valid_utf8(Seq::<u8>::empty()));
            },
        }
    } else {
        assert(valid_utf8(Seq::<u8>::empty()));
    }
}

/// Computes [`utf8_step`] for the bytes of `data` from `i` on.
pub fn utf8_step_at(data: &Vec<u8>, i: usize) -> (r: Utf8Step)
    requires
        i < data@.len(),
    ensures
        r == utf8_step(data@.subrange(i as int, data@.len() as int)),
{
    let ghost s = data@.subrange(i as int, data@.len() as int);
    let n = data.len();
    let b0 = data[i];
    assert(s[0] == b0);
    let w: usize = if b0 < 0x80 {
        1
    } else if 0xc2 <= b0 && b0 <= 0xdf {
        2
    } else if 0xe0 <= b0 && b0 <= 0xef {
        3
    } else if 0xf0 <= b0 && b0 <= 0xf4 {
        4
    } else {
        0
    };
    if w == 1 {
        return Utf8Step::Char(1);
    }
    if w == 0 {
        return Utf8Step::Invalid(1);
    }
    if n - i < 2 {
        return Utf8Step::Incomplete;
    }
    let b1 = data[i + 1];
    assert(s[1] == b1);
    let ok1 = if b0 == 0xe0 {
        0xa0 <= b1 && b1 <= 0xbf
    } else if b0 == 0xed {
        0x80 <= b1 && b1 <= 0x9f
    } else if b0 == 0xf0 {
        0x90 <= b1 && b1 <= 0xbf
    } else if b0 == 0xf4 {
        0x80 <= b1 && b1 <= 0x8f
    } else {
        0x80 <= b1 && b1 <= 0xbf
    };
    if !ok1 {
        return Utf8Step::Invalid(1);
    }
    if w == 2 {
        return Utf8Step::Char(2);
    }
    if n - i < 3 {
        return Utf8Step::Incomplete;
    }
    let b2 = data[i + 2];
    assert(s[2] == b2);
    if !(0x80 <= b2 && b2 <= 0xbf) {
        return Utf8Step::Invalid(2);
    }
    if w == 3 {
        return Utf8Step::Char(3);
    }
    if n - i < 4 {
        return Utf8Step::Incomplete;
    }
    let b3 = data[i + 3];
    assert(s[3] == b3);
    if !(0x80 <= b3 && b3 <= 0xbf) {
        return Utf8Step::Invalid(3);
    }
    Utf8Step::Char(4)
}

/// A well-formed character at the start of `s` is read as one step of
/// exactly its length.
pub proof fn lemma_valid_first_scalar_step(s: Seq<u8>)
    requires
        valid_first_scalar(s),
    ensures
        utf8_step(s) == Utf8Step::Char(length_of_first_scalar(s) as usize),
{
    let b0 = s[0];
    if is_leading_byte_width_1(b0) {
    } else if is_leading_byte_width_2(b0) {
        let b1 = s[1];
        assert(0xc2 <= b0) by (bit_vector)
            requires
                0xc0 <= b0 <= 0xdf,
                0x80 <= b1 <= 0xbf,
                ((((b0 & 0x1f) as u32) << 6) | ((b1 & 0x3f) as u32)) >= 0x80,
        ;
    } else if is_leading_byte_width_3(b0) {
        let b1 = s[1];
        let b2 = s[2];
        assert(b0 == 0xe0 ==> 0xa0 <= b1) by (bit_vector)
            requires
                0x80 <= b1 <= 0xbf,
                0x80 <= b2 <= 0xbf,
                ((((b0 & 0x0f) as u32) << 12) | (((b1 & 0x3f) as u32) << 6) | ((b2 & 0x3f) as u32))
                    >= 0x800,
        ;
        assert(b0 == 0xed ==> b1 <= 0x9f) by (bit_vector)
            requires
                0x80 <= b1 <= 0xbf,
                0x80 <= b2 <= 0xbf,
                !(0xd800 <= ((((b0 & 0x0f) as u32) << 12) | (((b1 & 0x3f) as u32) << 6) | ((b2
                    & 0x3f) as u32)) <= 0xdfff),
        ;
    } else {
        let b1 = s[1];
        let b2 = s[2];
        let b3 = s[3];
        assert(b0 <= 0xf4 && (b0 == 0xf0 ==> 0x90 <= b1) && (b0 == 0xf4 ==> b1 <= 0x8f))
            by (bit_vector)
            requires
                0xf0 <= b0 <= 0xf7,
                0x80 <= b1 <= 0xbf,
                0x80 <= b2 <= 0xbf,
                0x80 <= b3 <= 0xbf,
                0x10000 <= ((((b0 & 0x07) as u32) << 18) | (((b1 & 0x3f) as u32) << 12) | (((b2
                    & 0x3f) as u32) << 6) | ((b3 & 0x3f) as u32)) <= 0x10ffff,
        ;
    }
}

/// Well-formed UTF-8 is decoded unchanged, with nothing held back.
pub proof fn lemma_lossy_scan_of_valid(s: Seq<u8>)
    requires
        valid_utf8(s),
    ensures
        lossy_scan(s) == (s, Seq::<u8>::empty()),
    decreases s.len(),
{
    if s.len() > 0 {
        lemma_valid_first_scalar_step(s);
        let n = length_of_first_scalar(s);
        lemma_lossy_scan_of_valid(pop_first_scalar(s));
        assert(s.subrange(0, n) + pop_first_scalar(s) =~= s);
    }
}

/// A non-empty prefix `a` of well-formed UTF-8 `a + b` starts with the first
/// character when it holds all of it, and is cut off inside it otherwise.
pub proof fn lemma_valid_prefix_step(a: Seq<u8>, b: Seq<u8>)
    requires
        valid_utf8(a + b),
        a.len() > 0,
    ensures
        length_of_first_scalar(a + b) <= a.len() ==> utf8_step(a) == Utf8Step::Char(
            length_of_first_scalar(a + b) as usize,
        ),
        length_of_first_scalar(a + b) > a.len() ==> utf8_step(a) == Utf8Step::Incomplete,
{
    let s = a + b;
    lemma_valid_first_scalar_step(s);
    assert(forall|i: int| 0 <= i < a.len() ==> a[i] == s[i]);
    lemma_step_bounds(s);
}

/// Lossy decoding of a prefix of well-formed UTF-8 replaces nothing: it
/// gives back the prefix, split where its last complete character ends, and
/// when nothing is cut off the rest of the text is well-formed too.
pub proof fn lemma_lossy_scan_of_valid_prefix(a: Seq<u8>, b: Seq<u8>)
    requires
        valid_utf8(a + b),
    ensures
        lossy_scan(a).0 + lossy_scan(a).1 == a,
        lossy_scan(a).1.len() == 0 ==> valid_utf8(b),
    decreases a.len(),
{
    let s = a + b;
    if a.len() == 0 {
        assert(s =~= b);
    } else {
        lemma_valid_prefix_step(a, b);
        let n = length_of_first_scalar(s);
        assert(1 <= n <= 4);
        if n <= a.len() {
            let rest = a.subrange(n, a.len() as int);
            assert(rest + b =~= pop_first_scalar(s));
            lemma_lossy_scan_of_valid_prefix(rest, b);
            let r = lossy_scan(rest);
            assert(r.0 + r.1 == rest);
            assert(lossy_scan(a) == (a.subrange(0, n) + r.0, r.1));
            assert((a.subrange(0, n) + r.0) + r.1 =~= a.subrange(0, n) + (r.0 + r.1));
            assert(a.subrange(0, n) + rest =~= a);
        }
    }
}

/// A decoding step never takes a byte that can start a character: after
/// its first byte, a step (well-formed, ill-formed or cut off) covers only
/// continuation bytes. So an ill-formed step is the maximal invalid subpart
/// that `std::str::from_utf8` reports, never more.
pub proof fn law_a_step_takes_only_continuation_bytes(s: Seq<u8>)
    requires
        s.len() > 0,
    ensures
        match utf8_step(s) {
            Utf8Step::Char(n) => forall|j: int| 1 <= j < n ==> is_continuation_byte(#[trigger] s[j]),
            Utf8Step::Invalid(n) => forall|j: int| 1 <= j < n ==> is_continuation_byte(#[trigger] s[j]),
            Utf8Step::Incomplete => forall|j: int| 1 <= j < s.len() ==> is_continuation_byte(#[trigger] s[j]),
        },
        !is_continuation_byte(s[0]) && utf8_width(s[0]) == 0 ==> utf8_step(s) == Utf8Step::Invalid(1),
{
    lemma_step_bounds(s);
}

proof fn lemma_valid_starts_with_a_leading_byte(b: Seq<u8>)
    requires
        valid_utf8(b),
        b.len() > 0,
    ensures
        !is_continuation_byte(b[0]),
{
    assert(valid_first_scalar(b));
}

/// Well-formed text ends the decoding: whatever bytes come before it, lossy
/// decoding of them followed by non-empty well-formed UTF-8 holds nothing
/// back and ends with that text unchanged. A broken sequence before it is
/// replaced without taking any of its bytes.
pub proof fn law_well_formed_text_ends_the_decoding(a: Seq<u8>, b: Seq<u8>)
    requires
        valid_utf8(b),
        b.len() > 0,
    ensures
        lossy_scan(a + b).1.len() == 0,
        lossy_scan(a + b).0.len() >= b.len(),
        lossy_scan(a + b).0.subrange(
            lossy_scan(a + b).0.len() - b.len(),
            lossy_scan(a + b).0.len() as int,
        ) == b,
    decreases a.len(),
{
    let s = a + b;
    if a.len() == 0 {
        assert(s =~= b);
        lemma_lossy_scan_of_valid(b);
        assert(b.subrange(0, b.len() as int) =~= b);
    } else {
        lemma_valid_starts_with_a_leading_byte(b);
        lemma_step_bounds(s);
        law_a_step_takes_only_continuation_bytes(s);
        assert(s[a.len() as int] == b[0]);
        let n: int = match utf8_step(s) {
            Utf8Step::Char(n) => n as int,
            Utf8Step::Invalid(n) => n as int,
            Utf8Step::Incomplete => 0,
        };
        assert(!(utf8_step(s) is Incomplete));
        assert(1 <= n <= a.len());
        let rest = a.subrange(n, a.len() as int);
        assert(s.subrange(n, s.len() as int) =~= rest + b);
        law_well_formed_text_ends_the_decoding(rest, b);
        let r = lossy_scan(rest + b);
        let head = match utf8_step(s) {
            Utf8Step::Char(k) => s.subrange(0, n),
            _ => replacement_bytes(),
        };
        assert(lossy_scan(s) == (head + r.0, r.1));
        let out = head + r.0;
        assert(out.subrange(out.len() - b.len(), out.len() as int) =~= r.0.subrange(
            r.0.len() - b.len(),
            r.0.len() as int,
        ));
    }
}

} // verus!
