//! The per-token decisions of a completion: what text is released to the
//! client, when a stop word ends generation, and when a limit does.
use vstd::prelude::*;
use vstd::utf8::{decode_utf8, encode_utf8, encode_utf8_decode_utf8, is_char_boundary};
use crate::engine::completion::{
    full_candidate, no_partial_stop, occurs_at, partial_stop_at, scan_order_le, scan_result,
    scan_spec, suffix_is_stop_prefix, utf8_push_result, word_bytes, IncrementalUtf8, StopMatcher,
    StopScan, StopType,
};
use crate::engine::task::TaskError;
use crate::engine::completion::{is_error, string_from_utf8};
use vstd::utf8::{valid_utf8, valid_first_scalar, pop_first_scalar};

verus! {

broadcast use vstd::utf8::group_utf8_lib;

/// The largest char boundary of `b` that is at most `len`.
pub open spec fn floor_char_boundary(b: Seq<u8>, len: int) -> int
    decreases len,
{
    if len <= 0 {
        0
    } else if len > b.len() {
        floor_char_boundary(b, b.len() as int)
    } else if is_char_boundary(b, len) {
        len
    } else {
        floor_char_boundary(b, len - 1)
    }
}

pub proof fn lemma_floor_char_boundary(b: Seq<u8>, len: int)
    ensures
        0 <= floor_char_boundary(b, len) <= b.len(),
        floor_char_boundary(b, len) <= len || len < 0,
    decreases if len > b.len() { len + 1 } else if len < 0 { 0 } else { len },
{
    if len > 0 {
        if len > b.len() {
            lemma_floor_char_boundary(b, b.len() as int);
        } else if !is_char_boundary(b, len) {
            lemma_floor_char_boundary(b, len - 1);
        }
    }
}

/// Splits `buffer` at `len` bytes, moved back to a char boundary: returns the
/// part before and leaves the rest in `buffer`.
pub fn take_prefix(buffer: &mut String, len: usize) -> (r: String)
    ensures
        ({
            let b = encode_utf8(old(buffer)@);
            let cut = floor_char_boundary(b, len as int);
            &&& encode_utf8(r@) == b.subrange(0, cut)
            &&& encode_utf8(final(buffer)@) == b.subrange(cut, b.len() as int)
        }),
{
    let ghost b = encode_utf8(buffer@);
    let whole = buffer.as_str();
    assert(whole@ == buffer@);
    let total = whole.as_bytes().len();
    let mut cut = if len < total { len } else { total };
    proof {
        lemma_floor_char_boundary(b, len as int);
    }
    assert(floor_char_boundary(b, cut as int) == floor_char_boundary(b, len as int));
    while cut > 0 && !buffer.as_str().is_char_boundary(cut)
        invariant
            cut <= total,
            total == b.len(),
            b == encode_utf8(buffer@),
            floor_char_boundary(b, cut as int) == floor_char_boundary(b, len as int),
        decreases cut,
    {
        cut = cut - 1;
    }
    let (head, tail) = buffer.as_str().split_at(cut);
    let prefix = head.to_owned();
    let rest = tail.to_owned();
    *buffer = rest;
    prefix
}

/// Whether a byte string holds a line feed.
pub fn contains_new_line(text: &str) -> (r: bool)
    ensures
        r == encode_utf8(text@).contains(0x0au8),
{
    let bytes = text.as_bytes();
    assert(bytes@ == encode_utf8(text@));
    let mut i: usize = 0;
    while i < bytes.len()
        invariant
            i <= bytes@.len(),
            bytes@ == encode_utf8(text@),
            forall|j: int| 0 <= j < i ==> bytes@[j] != 0x0au8,
        decreases bytes@.len() - i,
    {
        if bytes[i] == 0x0a {
            assert(bytes@[i as int] == 0x0au8);
            return true;
        }
        i = i + 1;
    }
    false
}

/// What the held text becomes after a scan: `(released, still held, stop word)`.
pub open spec fn release_spec(held: Seq<u8>, scan: StopScan) -> (Seq<u8>, Seq<u8>, Option<usize>) {
    match scan {
        StopScan::Full { pos, word } => {
            let cut = floor_char_boundary(held, pos as int);
            (held.subrange(0, cut), Seq::empty(), Some(word))
        },
        StopScan::Partial { pos } => {
            let cut = floor_char_boundary(held, pos as int);
            (held.subrange(0, cut), held.subrange(cut, held.len() as int), None)
        },
        StopScan::NoMatch => (held, Seq::empty(), None),
    }
}

/// Releasing held text loses none of it: without a full stop-word match the
/// released and the still-held text make up the held text; with one, the
/// released text is the held text up to the start of the stop word (cut
/// back to a char boundary) and nothing stays held.
pub proof fn law_release_keeps_text(held: Seq<u8>, scan: StopScan)
    requires
        scan matches StopScan::Full { pos, .. } ==> pos <= held.len(),
        scan matches StopScan::Partial { pos } ==> pos <= held.len(),
    ensures
        ({
            let out = release_spec(held, scan);
            &&& !(scan is Full) ==> out.0 + out.1 == held
            &&& scan matches StopScan::Full { pos, .. } ==> {
                &&& out.0.is_prefix_of(held)
                &&& out.0.len() <= pos
                &&& out.1.len() == 0
            }
        }),
{
    match scan {
        StopScan::Full { pos, word } => {
            lemma_floor_char_boundary(held, pos as int);
        },
        StopScan::Partial { pos } => {
            lemma_floor_char_boundary(held, pos as int);
            let cut = floor_char_boundary(held, pos as int);
            assert(held.subrange(0, cut) + held.subrange(cut, held.len() as int) =~= held);
        },
        StopScan::NoMatch => {
            assert(held + Seq::<u8>::empty() =~= held);
        },
    }
}

/// No stop word occurs anywhere in `text`.
pub open spec fn free_of_stops(text: Seq<u8>, stops: Seq<Seq<char>>) -> bool {
    forall|j: int, q: int|
        0 <= j < stops.len() && word_bytes(stops[j]).len() > 0 ==> !#[trigger] occurs_at(
            text,
            word_bytes(stops[j]),
            q,
        )
}

/// The last `k` bytes of `content` followed by `held` begin the stop word
/// `w`: a stop word that started in released text could still complete.
pub open spec fn straddles(content: Seq<u8>, held: Seq<u8>, w: Seq<u8>, k: int) -> bool {
    &&& 1 <= k <= content.len()
    &&& (content.subrange(content.len() - k, content.len() as int) + held).is_prefix_of(w)
}

/// Released text `content` and held text `held` are safe: no stop word
/// occurs in them, and none can begin in the released text.
pub open spec fn stop_safe(content: Seq<u8>, held: Seq<u8>, stops: Seq<Seq<char>>) -> bool {
    &&& free_of_stops(content + held, stops)
    &&& forall|j: int, k: int|
        0 <= j < stops.len() ==> !#[trigger] straddles(content, held, word_bytes(stops[j]), k)
}

/// An occurrence of a stop word in released-then-held text lies in the held
/// text and reaches into the last piece.
proof fn lemma_occurrence_in_window(
    content: Seq<u8>,
    unsent: Seq<u8>,
    piece: Seq<u8>,
    stops: Seq<Seq<char>>,
    j: int,
    q: int,
)
    requires
        stop_safe(content, unsent, stops),
        0 <= j < stops.len(),
        word_bytes(stops[j]).len() > 0,
        occurs_at(content + (unsent + piece), word_bytes(stops[j]), q),
    ensures
        q >= content.len(),
        full_candidate(unsent + piece, stops, piece.len() as int, j, q - content.len()),
{
    let w = word_bytes(stops[j]);
    let held = unsent + piece;
    let all = content + held;
    let c = content.len() as int;
    let u = unsent.len() as int;
    if q + w.len() <= c + u {
        assert(all.subrange(q, q + w.len()) =~= (content + unsent).subrange(q, q + w.len()));
        assert(occurs_at(content + unsent, w, q));
        assert(false);
    }
    if q < c {
        let k = c - q;
        let r = content.subrange(c - k, c);
        assert((r + unsent) =~= w.subrange(0, k + u)) by {
            assert forall|i: int| 0 <= i < k + u implies (r + unsent)[i] == w[i] by {
                assert(all.subrange(q, q + w.len())[i] == w[i]);
                assert(all[q + i] == w[i]);
            }
        }
        assert(straddles(content, unsent, w, k));
        assert(false);
    }
    let p = q - c;
    assert(held.subrange(p, p + w.len()) =~= all.subrange(q, q + w.len()));
    assert(occurs_at(held, w, p));
}

/// A suffix of the held text that begins a stop word is no longer than the
/// longest such suffix.
proof fn lemma_longest_partial(text: Seq<u8>, stop: Seq<u8>, len: int)
    requires
        suffix_is_stop_prefix(text, stop, len),
    ensures
        exists|p: int| #[trigger] partial_stop_at(text, stop, p) && p <= text.len() - len,
    decreases text.len() + stop.len() - len,
{
    if exists|l: int| l > len && #[trigger] suffix_is_stop_prefix(text, stop, l) {
        let l = choose|l: int| l > len && #[trigger] suffix_is_stop_prefix(text, stop, l);
        lemma_longest_partial(text, stop, l);
        let p = choose|p: int| #[trigger] partial_stop_at(text, stop, p) && p <= text.len() - l;
        assert(partial_stop_at(text, stop, p) && p <= text.len() - len);
    } else {
        assert(partial_stop_at(text, stop, text.len() - len));
    }
}

/// A suffix of `content + held` that starts inside `content` and begins a
/// stop word would straddle the released text.
proof fn lemma_suffix_in_content(
    content: Seq<u8>,
    unsent: Seq<u8>,
    piece: Seq<u8>,
    w: Seq<u8>,
    m: int,
)
    requires
        1 <= m <= content.len(),
        (content.subrange(content.len() - m, content.len() as int) + (unsent + piece)).is_prefix_of(w),
    ensures
        straddles(content, unsent, w, m),
{
    let r = content.subrange(content.len() - m, content.len() as int);
    assert((r + unsent) =~= (r + (unsent + piece)).subrange(0, m + unsent.len()));
}

/// Releasing text never lets a stop word through. If the released and the
/// held text are safe before a piece is added, then after the scan either a
/// stop word was found and the released text holds none, or the released
/// and the still-held text are safe again.
pub proof fn law_released_text_has_no_stop_word(
    content: Seq<u8>,
    unsent: Seq<u8>,
    piece: Seq<u8>,
    stops: Seq<Seq<char>>,
    scan: StopScan,
)
    requires
        stop_safe(content, unsent, stops),
        scan_result(unsent + piece, stops, piece.len() as int, true, scan),
    ensures
        ({
            let out = release_spec(unsent + piece, scan);
            &&& scan is Full ==> free_of_stops(content + out.0, stops)
            &&& !(scan is Full) ==> stop_safe(content + out.0, out.1, stops)
        }),
{
    let held = unsent + piece;
    let out = release_spec(held, scan);
    let c = content.len() as int;
    let cut: int = match scan {
        StopScan::Full { pos, .. } => floor_char_boundary(held, pos as int),
        StopScan::Partial { pos } => floor_char_boundary(held, pos as int),
        StopScan::NoMatch => held.len() as int,
    };
    match scan {
        StopScan::Full { pos, .. } => {
            lemma_floor_char_boundary(held, pos as int);
        },
        StopScan::Partial { pos } => {
            lemma_floor_char_boundary(held, pos as int);
        },
        StopScan::NoMatch => {},
    }
    assert(out.0 =~= held.subrange(0, cut));
    let released = content + out.0;
    assert(released =~= (content + held).subrange(0, c + cut));
    // No stop word occurs in the released text (nor, without a stop, in
    // the released and held text together).
    assert forall|j: int, q: int|
        0 <= j < stops.len() && word_bytes(stops[j]).len() > 0 && (!(scan is Full)
            || q + word_bytes(stops[j]).len() <= c + cut) implies !#[trigger] occurs_at(
        content + held,
        word_bytes(stops[j]),
        q,
    ) by {
        if occurs_at(content + held, word_bytes(stops[j]), q) {
            lemma_occurrence_in_window(content, unsent, piece, stops, j, q);
            match scan {
                StopScan::Full { pos, word } => {
                    assert(scan_order_le(pos as int, word as int, q - c, j));
                },
                _ => {
                    assert(full_candidate(held, stops, piece.len() as int, j, q - c));
                },
            }
        }
    }
    if scan is Full {
        assert forall|j: int, q: int|
            0 <= j < stops.len() && word_bytes(stops[j]).len() > 0 implies !#[trigger] occurs_at(
            released,
            word_bytes(stops[j]),
            q,
        ) by {
            let w = word_bytes(stops[j]);
            if occurs_at(released, w, q) {
                assert((content + held).subrange(q, q + w.len()) =~= released.subrange(q, q + w.len()));
                assert(occurs_at(content + held, w, q));
            }
        }
    } else {
        let rest = out.1;
        assert(rest =~= held.subrange(cut, held.len() as int));
        assert(released + rest =~= content + held);
        assert forall|j: int, k: int| 0 <= j < stops.len() implies !#[trigger] straddles(
            released,
            rest,
            word_bytes(stops[j]),
            k,
        ) by {
            let w = word_bytes(stops[j]);
            if straddles(released, rest, w, k) {
                let suffix = released.subrange(released.len() - k, released.len() as int) + rest;
                if k > cut {
                    let m = k - cut;
                    assert(suffix =~= content.subrange(c - m, c) + held);
                    lemma_suffix_in_content(content, unsent, piece, w, m);
                } else {
                    let len = held.len() - cut + k;
                    assert(suffix =~= held.subrange(held.len() - len, held.len() as int));
                    assert(w.subrange(0, len) =~= suffix);
                    assert(suffix_is_stop_prefix(held, w, len));
                    match scan {
                        StopScan::Partial { pos } => {
                            lemma_longest_partial(held, w, len);
                            let p = choose|p: int| #[trigger] partial_stop_at(held, w, p) && p
                                <= held.len() - len;
                            assert(pos <= p);
                        },
                        _ => {
                            assert(no_partial_stop(held, w));
                        },
                    }
                }
            }
        }
    }
}

/// The encoding of two strings one after the other is the two encodings
/// one after the other.
pub proof fn lemma_encode_utf8_append(a: Seq<char>, b: Seq<char>)
    ensures
        encode_utf8(a + b) == encode_utf8(a) + encode_utf8(b),
    decreases a.len(),
{
    if a.len() == 0 {
        assert(a + b =~= b);
        assert(encode_utf8(a) =~= Seq::<u8>::empty());
        assert(Seq::<u8>::empty() + encode_utf8(b) =~= encode_utf8(b));
    } else {
        assert((a + b).drop_first() =~= a.drop_first() + b);
        assert((a + b)[0] == a[0]);
        lemma_encode_utf8_append(a.drop_first(), b);
        assert(encode_utf8(a + b) =~= encode_utf8(a) + encode_utf8(b));
    }
}

/// Text free of stop words stays so when cut short.
proof fn lemma_free_prefix(a: Seq<u8>, b: Seq<u8>, stops: Seq<Seq<char>>)
    requires
        free_of_stops(a + b, stops),
    ensures
        free_of_stops(a, stops),
{
    assert forall|j: int, q: int|
        0 <= j < stops.len() && word_bytes(stops[j]).len() > 0 implies !#[trigger] occurs_at(
        a,
        word_bytes(stops[j]),
        q,
    ) by {
        let w = word_bytes(stops[j]);
        if occurs_at(a, w, q) {
            assert((a + b).subrange(q, q + w.len()) =~= a.subrange(q, q + w.len()));
            assert(occurs_at(a + b, w, q));
        }
    }
}

/// One release step on strings: the released text of a safe state is free
/// of stop words, and without a stop word the new state is safe again.
proof fn lemma_release_step_safety(
    content: Seq<char>,
    unsent: Seq<char>,
    piece: Seq<char>,
    sent: Seq<char>,
    rest: Seq<char>,
    stops: Seq<Seq<char>>,
    scan: StopScan,
)
    requires
        stop_safe(encode_utf8(content), encode_utf8(unsent), stops),
        scan_result(encode_utf8(unsent + piece), stops, encode_utf8(piece).len() as int, true, scan),
        encode_utf8(sent) == release_spec(encode_utf8(unsent + piece), scan).0,
        encode_utf8(rest) == release_spec(encode_utf8(unsent + piece), scan).1,
    ensures
        free_of_stops(encode_utf8(content + sent), stops),
        !(scan is Full) ==> stop_safe(encode_utf8(content + sent), encode_utf8(rest), stops),
{
    lemma_encode_utf8_append(unsent, piece);
    lemma_encode_utf8_append(content, sent);
    law_released_text_has_no_stop_word(
        encode_utf8(content),
        encode_utf8(unsent),
        encode_utf8(piece),
        stops,
        scan,
    );
    if !(scan is Full) {
        lemma_free_prefix(encode_utf8(content + sent), encode_utf8(rest), stops);
    }
}

/// Generation starts safe: no text has been released or held.
pub proof fn law_generation_starts_stop_safe(stops: Seq<Seq<char>>)
    ensures
        stop_safe(encode_utf8(Seq::<char>::empty()), encode_utf8(Seq::<char>::empty()), stops),
{
    let e = encode_utf8(Seq::<char>::empty());
    assert(e =~= Seq::<u8>::empty());
    assert(e + e =~= Seq::<u8>::empty());
}

/// Flushing the held text of a safe state releases no stop word: the
/// released and held text together hold none.
pub proof fn law_flushed_text_has_no_stop_word(
    content: Seq<char>,
    unsent: Seq<char>,
    stops: Seq<Seq<char>>,
)
    requires
        stop_safe(encode_utf8(content), encode_utf8(unsent), stops),
    ensures
        free_of_stops(encode_utf8(content), stops),
        free_of_stops(encode_utf8(content + unsent), stops),
{
    lemma_encode_utf8_append(content, unsent);
    lemma_free_prefix(encode_utf8(content), encode_utf8(unsent), stops);
}

/// Per-request generation state.
#[derive(Debug)]
pub struct GenerationState {
    /// The text released so far.
    pub content: String,
    /// Text held back because it may begin a stop word.
    pub unsent: String,
    pub tokens: Vec<i32>,
    pub last_token: i32,
    pub n_decoded: i32,
    pub n_past: i32,
    pub stop_type: StopType,
    pub stopping_word: String,
    pub truncated: bool,
    pub has_new_line: bool,
}

/// What a sampled token leads to.
#[derive(Debug)]
pub enum TokenStep {
    /// The token ends the generation.
    EndOfGeneration,
    /// The token's bytes end inside a character: nothing to release yet.
    Held,
    /// `text` is released; `has_next` is false when a stop word was found;
    /// `with_timings` tells whether the chunk carries timings.
    Released { text: String, has_next: bool, new_line: bool, with_timings: bool },
}

impl GenerationState {
    /// The state before the first token, after a prompt of `n_prompt` tokens.
    pub fn new(n_prompt: i32) -> (s: Self)
        ensures
            s.content@.len() == 0,
            s.unsent@.len() == 0,
            s.tokens@.len() == 0,
            s.last_token == 0,
            s.n_decoded == 0,
            s.n_past == n_prompt,
            s.stop_type == StopType::NotStopped,
            s.stopping_word@.len() == 0,
            !s.truncated,
            !s.has_new_line,
    {
        GenerationState {
            content: String::new(),
            unsent: String::new(),
            tokens: Vec::new(),
            last_token: 0,
            n_decoded: 0,
            n_past: n_prompt,
            stop_type: StopType::NotStopped,
            stopping_word: String::new(),
            truncated: false,
            has_new_line: false,
        }
    }

    /// Follows the stop-word window of llama.cpp's server: a full match
    /// truncates the held text and records the stop word, a partial match
    /// holds its tail back for the next token, and anything else is released
    /// in full. Returns the released text.
    pub fn take_sent(&mut self, piece_len: usize, stops: &StopMatcher) -> (sent: String)
        ensures
            ({
                let held = encode_utf8(old(self).unsent@);
                let scan = scan_spec(held, stops@, piece_len as int, true);
                let out = release_spec(held, scan);
                &&& scan_result(held, stops@, piece_len as int, true, scan)
                &&& encode_utf8(sent@) == out.0
                &&& encode_utf8(final(self).unsent@) == out.1
                &&& match out.2 {
                    Some(word) => {
                        &&& final(self).stop_type == StopType::Word
                        &&& final(self).stopping_word@ == stops@[word as int]
                    },
                    None => {
                        &&& final(self).stop_type == old(self).stop_type
                        &&& final(self).stopping_word@ == old(self).stopping_word@
                    },
                }
            }),
            final(self).content == old(self).content,
            final(self).tokens == old(self).tokens,
            final(self).last_token == old(self).last_token,
            final(self).n_decoded == old(self).n_decoded,
            final(self).n_past == old(self).n_past,
            final(self).truncated == old(self).truncated,
            final(self).has_new_line == old(self).has_new_line,
    {
        let ghost held = encode_utf8(self.unsent@);
        let mut send_len = self.unsent.as_str().as_bytes().len();
        let mut discard_rest = false;
        let scan = stops.scan(self.unsent.as_str(), piece_len, true);
        match scan {
            StopScan::Full { pos, word } => {
                send_len = pos;
                self.stop_type = StopType::Word;
                let words = stops.stops();
                assert(words@.map_values(|s: String| s@)[word as int] == words@[word as int]@);
                self.stopping_word = words[word].clone();
                discard_rest = true;
            },
            StopScan::Partial { pos } => {
                send_len = pos;
            },
            StopScan::NoMatch => {},
        }
        let sent = take_prefix(&mut self.unsent, send_len);
        proof {
            if scan is NoMatch {
                vstd::utf8::is_char_boundary_start_end_of_seq(held);
                assert(floor_char_boundary(held, held.len() as int) == held.len());
                assert(held.subrange(0, held.len() as int) =~= held);
            }
        }
        if discard_rest {
            self.unsent = String::new();
        }
        sent
    }
}

/// The text a token releases: the characters the decoder gives back.
pub open spec fn released_chars(released: Option<Seq<u8>>) -> Seq<char> {
    match released {
        Some(out) => decode_utf8(out),
        None => Seq::empty(),
    }
}

pub open spec fn released_len(released: Option<Seq<u8>>) -> int {
    match released {
        Some(out) => out.len() as int,
        None => 0,
    }
}

impl GenerationState {
    /// Takes a sampled token: counts it, ends the generation on an
    /// end-of-generation token, and otherwise decodes its bytes and, once no
    /// character is left incomplete, adds them to the held text and releases
    /// what no stop word can claim.
    pub fn accept_token(
        &mut self,
        utf8: &mut IncrementalUtf8,
        stops: &StopMatcher,
        token: i32,
        is_eog: bool,
        piece: &[u8],
        return_tokens: bool,
        timings_per_token: bool,
    ) -> (step: TokenStep)
        requires
            old(self).n_decoded < i32::MAX,
        ensures
            final(self).n_decoded == old(self).n_decoded + 1,
            final(self).last_token == token,
            final(self).tokens@ == if return_tokens {
                old(self).tokens@.push(token)
            } else {
                old(self).tokens@
            },
            final(self).n_past == old(self).n_past,
            final(self).truncated == old(self).truncated,
            final(self).has_new_line == old(self).has_new_line,
            stop_safe(encode_utf8(old(self).content@), encode_utf8(old(self).unsent@), stops@) ==> {
                &&& free_of_stops(encode_utf8(final(self).content@), stops@)
                &&& final(self).stop_type != StopType::Word ==> stop_safe(
                    encode_utf8(final(self).content@),
                    encode_utf8(final(self).unsent@),
                    stops@,
                )
            },
            is_eog ==> {
                &&& step is EndOfGeneration
                &&& final(self).stop_type == StopType::Eos
                &&& final(self).content == old(self).content
                &&& final(self).unsent == old(self).unsent
                &&& final(self).stopping_word == old(self).stopping_word
                &&& final(utf8)@ == old(utf8)@
            },
            !is_eog ==> {
                let pushed = utf8_push_result(old(utf8)@, piece@);
                &&& final(utf8)@ == pushed.0
                &&& pushed.0.len() > 0 ==> {
                    &&& step is Held
                    &&& final(self).stop_type == old(self).stop_type
                    &&& final(self).content == old(self).content
                    &&& final(self).unsent == old(self).unsent
                    &&& final(self).stopping_word == old(self).stopping_word
                }
                &&& pushed.0.len() == 0 ==> {
                    let held = encode_utf8(old(self).unsent@ + released_chars(pushed.1));
                    let scan = scan_spec(held, stops@, released_len(pushed.1), true);
                    let out = release_spec(held, scan);
                    &&& scan_result(held, stops@, released_len(pushed.1), true, scan)
                    &&& step matches TokenStep::Released { text, has_next, new_line, with_timings }
                        && {
                        &&& encode_utf8(text@) == out.0
                        &&& final(self).content@ == old(self).content@ + text@
                        &&& has_next == (final(self).stop_type == StopType::NotStopped)
                        &&& new_line == out.0.contains(0x0au8)
                        &&& with_timings == (timings_per_token || !has_next)
                    }
                    &&& encode_utf8(final(self).unsent@) == out.1
                    &&& match out.2 {
                        Some(word) => {
                            &&& final(self).stop_type == StopType::Word
                            &&& final(self).stopping_word@ == stops@[word as int]
                        },
                        None => {
                            &&& final(self).stop_type == old(self).stop_type
                            &&& final(self).stopping_word@ == old(self).stopping_word@
                        },
                    }
                }
            },
    {
        self.n_decoded = self.n_decoded + 1;
        self.last_token = token;
        if return_tokens {
            self.tokens.push(token);
        }
        proof {
            if stop_safe(encode_utf8(self.content@), encode_utf8(self.unsent@), stops@) {
                lemma_free_prefix(encode_utf8(self.content@), encode_utf8(self.unsent@), stops@);
            }
        }
        if is_eog {
            self.stop_type = StopType::Eos;
            return TokenStep::EndOfGeneration;
        }
        let piece_text = utf8.push(piece);
        if !utf8.is_empty() {
            return TokenStep::Held;
        }
        let ghost old_unsent = self.unsent@;
        let ghost piece_chars = match &piece_text {
            Some(text) => text@,
            None => Seq::<char>::empty(),
        };
        let piece_len = match &piece_text {
            Some(text) => text.as_str().as_bytes().len(),
            None => 0,
        };
        match &piece_text {
            Some(text) => {
                proof {
                    encode_utf8_decode_utf8(text@);
                }
                self.unsent.append(text.as_str());
            },
            None => {
                assert(self.unsent@ =~= self.unsent@ + Seq::<char>::empty());
            },
        }
        let ghost scanned = self.unsent@;
        let sent = self.take_sent(piece_len, stops);
        let ghost before = self.content@;
        proof {
            assert(scanned =~= old_unsent + piece_chars);
            assert(encode_utf8(piece_chars).len() == piece_len);
            if stop_safe(encode_utf8(before), encode_utf8(old_unsent), stops@) {
                let held = encode_utf8(scanned);
                let scan = scan_spec(held, stops@, piece_len as int, true);
                lemma_release_step_safety(
                    before,
                    old_unsent,
                    piece_chars,
                    sent@,
                    self.unsent@,
                    stops@,
                    scan,
                );
            }
        }
        self.content.append(sent.as_str());
        let new_line = contains_new_line(sent.as_str());
        let has_next = match self.stop_type {
            StopType::NotStopped => true,
            _ => false,
        };
        TokenStep::Released { text: sent, has_next, new_line, with_timings: timings_per_token || !has_next }
    }

    /// Applies the limits after a token: the context is full, `n_predict`
    /// tokens were generated, or (after a line feed was released) the time
    /// budget is spent. Returns whether generation goes on, and then moves to
    /// the next position.
    pub fn check_limits(
        &mut self,
        has_next: bool,
        sent_new_line: bool,
        n_ctx: i32,
        n_predict: i32,
        t_max_predict_ms: i64,
        elapsed_ms: u128,
    ) -> (next: bool)
        ensures
            limits_applied(
                *old(self),
                *final(self),
                next,
                has_next,
                sent_new_line,
                n_ctx,
                n_predict,
                t_max_predict_ms,
                elapsed_ms,
            ),
    {
        let mut has_next = has_next;
        if self.n_past as i64 + 1 >= n_ctx as i64 {
            self.truncated = true;
            self.stop_type = StopType::Limit;
            has_next = false;
        }
        if has_next && n_predict >= 0 && self.n_decoded >= n_predict {
            self.stop_type = StopType::Limit;
            has_next = false;
        }
        if sent_new_line {
            self.has_new_line = true;
            if t_max_predict_ms > 0 && elapsed_ms > t_max_predict_ms as u128 {
                self.stop_type = StopType::Limit;
                has_next = false;
            }
        }
        if has_next {
            self.n_past = self.n_past + 1;
        }
        has_next
    }
}

/// What [`GenerationState::check_limits`] makes of `before`: `after`, and
/// whether generation goes on (`next`). The context is full, `n_predict`
/// tokens were generated, or (after a line feed was released) the time budget
/// is spent; only the limit fields and the position change.
pub open spec fn limits_applied(
    before: GenerationState,
    after: GenerationState,
    next: bool,
    has_next: bool,
    sent_new_line: bool,
    n_ctx: i32,
    n_predict: i32,
    t_max_predict_ms: i64,
    elapsed_ms: u128,
) -> bool {
    let ctx_full = before.n_past + 1 >= n_ctx;
    let after_ctx = has_next && !ctx_full;
    let predict_done = after_ctx && n_predict >= 0 && before.n_decoded >= n_predict;
    let after_predict = after_ctx && !predict_done;
    let out_of_time = sent_new_line && t_max_predict_ms > 0 && elapsed_ms > t_max_predict_ms;
    &&& next == (after_predict && !out_of_time)
    &&& after.truncated == (before.truncated || ctx_full)
    &&& after.stop_type == if ctx_full || predict_done || out_of_time {
        StopType::Limit
    } else {
        before.stop_type
    }
    &&& after.has_new_line == (before.has_new_line || sent_new_line)
    &&& after.n_past == if next {
        before.n_past + 1
    } else {
        before.n_past as int
    }
    &&& after.content == before.content
    &&& after.unsent == before.unsent
    &&& after.tokens == before.tokens
    &&& after.last_token == before.last_token
    &&& after.n_decoded == before.n_decoded
    &&& after.stopping_word == before.stopping_word
}

/// The limits stop generation only for a reason, and always for one:
/// `n_predict` (when not negative) bounds the number of generated tokens,
/// whatever the length of the prompt; the context is full when the next
/// position would reach `n_ctx`; the time budget is checked only after a
/// line feed was released. Generation that goes on moves one position.
pub proof fn law_limits_stop_only_at_a_limit(
    before: GenerationState,
    after: GenerationState,
    next: bool,
    has_next: bool,
    sent_new_line: bool,
    n_ctx: i32,
    n_predict: i32,
    t_max_predict_ms: i64,
    elapsed_ms: u128,
)
    requires
        limits_applied(
            before,
            after,
            next,
            has_next,
            sent_new_line,
            n_ctx,
            n_predict,
            t_max_predict_ms,
            elapsed_ms,
        ),
    ensures
        (has_next && before.n_past + 1 < n_ctx && (n_predict < 0 || before.n_decoded < n_predict)
            && !(sent_new_line && t_max_predict_ms > 0 && elapsed_ms > t_max_predict_ms)) ==> {
            &&& next
            &&& after.stop_type == before.stop_type
            &&& after.n_past == before.n_past + 1
            &&& after.truncated == before.truncated
        },
        (has_next && before.n_past + 1 < n_ctx && 0 <= n_predict <= before.n_decoded) ==> {
            &&& !next
            &&& after.stop_type == StopType::Limit
            &&& after.n_past == before.n_past
        },
        before.n_past + 1 >= n_ctx ==> !next && after.truncated && after.stop_type == StopType::Limit,
        (sent_new_line && t_max_predict_ms > 0 && elapsed_ms > t_max_predict_ms) ==> !next
            && after.stop_type == StopType::Limit,
        !has_next ==> !next,
        next ==> after.stop_type == before.stop_type,
        after.content == before.content && after.unsent == before.unsent,
        after.n_decoded == before.n_decoded,
{
}

/// Releases text that was held for a stop word that never completed, once
/// generation ends; on a word stop the tail after the match is already gone.
/// Returns the released text, for a streaming client.
pub fn flush_held_text(state: &mut GenerationState) -> (r: Option<String>)
    ensures
        (old(state).stop_type == StopType::Word || old(state).unsent@.len() == 0) ==> {
            &&& r is None
            &&& final(state).content == old(state).content
            &&& final(state).unsent == old(state).unsent
            &&& final(state).has_new_line == old(state).has_new_line
        },
        !(old(state).stop_type == StopType::Word || old(state).unsent@.len() == 0) ==> {
            &&& r matches Some(held) && held@ == old(state).unsent@
            &&& final(state).content@ == old(state).content@ + old(state).unsent@
            &&& final(state).unsent@.len() == 0
            &&& final(state).has_new_line == (old(state).has_new_line || encode_utf8(
                old(state).unsent@,
            ).contains(0x0au8))
        },
        final(state).stop_type == old(state).stop_type,
        final(state).tokens == old(state).tokens,
        final(state).last_token == old(state).last_token,
        final(state).n_decoded == old(state).n_decoded,
        final(state).n_past == old(state).n_past,
        final(state).stopping_word == old(state).stopping_word,
        final(state).truncated == old(state).truncated,
{
    let is_word = match state.stop_type {
        StopType::Word => true,
        _ => false,
    };
    if is_word || state.unsent.as_str().is_empty() {
        return None;
    }
    let mut held = String::new();
    std::mem::swap(&mut held, &mut state.unsent);
    state.content.append(held.as_str());
    if contains_new_line(held.as_str()) {
        state.has_new_line = true;
    }
    Some(held)
}

/// The ASCII decimal digits of `n`.
pub open spec fn decimal_digits(n: nat) -> Seq<u8>
    decreases n,
{
    if n < 10 {
        seq![(n + 0x30) as u8]
    } else {
        decimal_digits(n / 10).push((n % 10 + 0x30) as u8)
    }
}

/// `v` written in decimal, with a minus sign when negative.
pub open spec fn decimal_bytes(v: int) -> Seq<u8> {
    if v < 0 {
        seq![0x2du8] + decimal_digits((-v) as nat)
    } else {
        decimal_digits(v as nat)
    }
}

pub(crate) proof fn lemma_ascii_valid(s: Seq<u8>)
    requires
        forall|i: int| 0 <= i < s.len() ==> #[trigger] s[i] < 0x80,
    ensures
        valid_utf8(s),
    decreases s.len(),
{
    if s.len() > 0 {
        let b = s[0];
        assert((b & 0x7f) as u32 == b as u32) by (bit_vector)
            requires
                b < 0x80,
        ;
        assert(valid_first_scalar(s));
        let rest = pop_first_scalar(s);
        assert(rest =~= s.subrange(1, s.len() as int));
        lemma_ascii_valid(rest);
    }
}

pub(crate) proof fn lemma_decimal_digits_ascii(n: nat)
    ensures
        forall|i: int| 0 <= i < decimal_digits(n).len() ==> 0x30 <= #[trigger] decimal_digits(n)[i] <= 0x39,
        decimal_digits(n).len() >= 1,
        decimal_digits(n).len() <= 20 || n >= 10,
    decreases n,
{
    if n >= 10 {
        lemma_decimal_digits_ascii(n / 10);
    }
}

/// Appends the decimal digits of `n`.
pub(crate) fn push_decimal(out: &mut Vec<u8>, n: u64)
    ensures
        final(out)@ == old(out)@ + decimal_digits(n as nat),
    decreases n,
{
    if n < 10 {
        out.push((n as u8) + 0x30);
        assert(decimal_digits(n as nat) =~= seq![((n as nat) + 0x30) as u8]);
    } else {
        let ghost before = out@;
        push_decimal(out, n / 10);
        out.push(((n % 10) as u8) + 0x30);
        assert(out@ =~= before + decimal_digits(n as nat));
    }
}

/// `v` in decimal.
pub fn i32_to_decimal(v: i32) -> (s: String)
    ensures
        encode_utf8(s@) == decimal_bytes(v as int),
{
    let mut out: Vec<u8> = Vec::new();
    if v < 0 {
        out.push(0x2d);
        let magnitude: u64 = (-(v as i64)) as u64;
        push_decimal(&mut out, magnitude);
        proof {
            lemma_decimal_digits_ascii(magnitude as nat);
        }
    } else {
        push_decimal(&mut out, v as u64);
        proof {
            lemma_decimal_digits_ascii(v as nat);
        }
    }
    assert(out@ =~= decimal_bytes(v as int));
    proof {
        lemma_ascii_valid(out@);
    }
    match string_from_utf8(out) {
        Some(s) => s,
        None => {
            proof {
                assert(false);
            }
            String::new()
        },
    }
}

/// `v` in decimal.
pub fn u64_to_decimal(v: u64) -> (s: String)
    ensures
        encode_utf8(s@) == decimal_digits(v as nat),
{
    let mut out: Vec<u8> = Vec::new();
    push_decimal(&mut out, v);
    proof {
        lemma_decimal_digits_ascii(v as nat);
        assert(out@ =~= decimal_digits(v as nat));
        lemma_ascii_valid(out@);
    }
    match string_from_utf8(out) {
        Some(s) => s,
        None => {
            proof {
                assert(false);
            }
            String::new()
        },
    }
}

/// The batches a prompt of `n_tokens` tokens is decoded in: consecutive
/// ranges from the start to the end, each of `n_batch` tokens (at least
/// one) but the last, which may be shorter.
pub fn prompt_chunks(n_tokens: usize, n_batch: u32) -> (r: Vec<(usize, usize)>)
    ensures
        ({
            let b = if n_batch == 0 {
                1
            } else {
                n_batch as int
            };
            &&& n_tokens == 0 ==> r@.len() == 0
            &&& n_tokens > 0 ==> r@.len() > 0 && r@[0].0 == 0 && r@.last().1 == n_tokens
            &&& forall|i: int| 0 <= i < r@.len() ==> #[trigger] r@[i].0 < r@[i].1 <= r@[i].0 + b
            &&& forall|i: int|
                0 <= i < r@.len() - 1 ==> #[trigger] r@[i].1 == r@[i + 1].0 && r@[i].1 - r@[i].0 == b
        }),
{
    let b: usize = if n_batch == 0 {
        1
    } else {
        n_batch as usize
    };
    let mut out: Vec<(usize, usize)> = Vec::new();
    let mut start: usize = 0;
    while start < n_tokens
        invariant
            start <= n_tokens,
            b >= 1,
            b == (if n_batch == 0 {
                1
            } else {
                n_batch as int
            }),
            out@.len() == 0 <==> start == 0,
            out@.len() > 0 ==> out@[0].0 == 0 && out@.last().1 == start,
            forall|i: int| 0 <= i < out@.len() ==> #[trigger] out@[i].0 < out@[i].1 <= out@[i].0 + b,
            forall|i: int|
                0 <= i < out@.len() - 1 ==> #[trigger] out@[i].1 == out@[i + 1].0 && out@[i].1
                    - out@[i].0 == b,
            out@.len() > 0 && start < n_tokens ==> out@.last().1 - out@.last().0 == b,
        decreases n_tokens - start,
    {
        let end: usize = if n_tokens - start > b {
            start + b
        } else {
            n_tokens
        };
        out.push((start, end));
        start = end;
    }
    out
}

/// Checks the size of a tokenized prompt: it must not be empty and must
/// leave room in the context. Returns the prompt length as an `i32`
/// (saturated).
pub fn check_prompt_size(n_tokens: usize, n_ctx: i32) -> (r: Result<i32, TaskError>)
    ensures
        ({
            let n_prompt = if n_tokens > i32::MAX { i32::MAX as int } else { n_tokens as int };
            if n_tokens == 0 {
                r matches Err(e) && is_error(e, 400, "\"prompt\" must not be empty"@)
            } else if n_prompt >= n_ctx {
                r matches Err(e) && is_error(e, 400, "the request exceeds the available context size"@)
            } else {
                r == Ok::<i32, TaskError>(n_prompt as i32)
            }
        }),
{
    if n_tokens == 0 {
        return Err(TaskError::invalid_request(String::from_str("\"prompt\" must not be empty")));
    }
    let n_prompt: i32 = if n_tokens > 0x7fff_ffffusize {
        0x7fff_ffff
    } else {
        n_tokens as i32
    };
    if n_prompt >= n_ctx {
        return Err(
            TaskError::invalid_request(String::from_str("the request exceeds the available context size")),
        );
    }
    Ok(n_prompt)
}

/// Checks prompt token ids against the vocabulary size: the first id outside
/// `0..n_vocab` is reported.
pub fn validate_prompt_ids(ids: &Vec<i32>, n_vocab: i32) -> (r: Result<Vec<i32>, TaskError>)
    ensures
        match r {
            Ok(v) => v@ == ids@ && forall|i: int| 0 <= i < ids@.len() ==> 0 <= #[trigger] ids@[i]
                < n_vocab,
            Err(e) => exists|i: int|
                0 <= i < ids@.len() && !(0 <= #[trigger] ids@[i] < n_vocab) && (forall|j: int|
                    0 <= j < i ==> 0 <= #[trigger] ids@[j] < n_vocab) && e.code == 400
                    && e.error_type@ == crate::engine::task::error_type_for(400) && e.message@
                    == "invalid token id in \"prompt\": "@ + decode_utf8(decimal_bytes(ids@[i] as int)),
        },
{
    let mut out: Vec<i32> = Vec::new();
    let mut i: usize = 0;
    while i < ids.len()
        invariant
            i <= ids@.len(),
            out@ == ids@.subrange(0, i as int),
            forall|j: int| 0 <= j < i ==> 0 <= #[trigger] ids@[j] < n_vocab,
        decreases ids@.len() - i,
    {
        let id = ids[i];
        if !(id >= 0 && id < n_vocab) {
            let digits = i32_to_decimal(id);
            proof {
                encode_utf8_decode_utf8(digits@);
            }
            let mut message = String::from_str("invalid token id in \"prompt\": ");
            message.append(digits.as_str());
            return Err(TaskError::invalid_request(message));
        }
        out.push(id);
        assert(ids@.subrange(0, i + 1) =~= ids@.subrange(0, i as int).push(id));
        i = i + 1;
    }
    assert(ids@.subrange(0, ids@.len() as int) =~= ids@);
    Ok(out)
}


/// What happened to a chunk handed to the client.
#[derive(Debug, Clone, Copy, PartialEq, Eq, Structural)]
pub enum EmitOutcome {
    Continue,
    ReceiverGone,
}

/// A chunk that no client received ends the completion with a server error.
pub fn emit_result(outcome: EmitOutcome) -> (r: Result<(), TaskError>)
    ensures
        outcome == EmitOutcome::Continue ==> r is Ok,
        outcome == EmitOutcome::ReceiverGone ==> (r matches Err(e) && is_error(
            e,
            500,
            "client disconnected"@,
        )),
{
    match outcome {
        EmitOutcome::Continue => Ok(()),
        EmitOutcome::ReceiverGone => Err(
            TaskError::server(String::from_str("client disconnected")),
        ),
    }
}

} // verus!
