//! Stop words, incremental UTF-8 decoding and the reading of completion
//! requests.
use vstd::prelude::*;
use vstd::utf8::*;
use crate::engine::sampler::{json_bool, json_i32, json_i64, number_i64_spec, field_spec};
use crate::engine::task::{error_type_for, TaskError};
use crate::json::{json_get, value_as_i64, JsonValue};
use crate::engine::lossy_utf8::{
    lemma_char_step_valid, lemma_lossy_scan_of_valid, lemma_lossy_scan_of_valid_prefix,
    lemma_replacement_valid, lemma_step_bounds,
    lossy_scan, replacement_bytes, utf8_step_at, Utf8Step,
};

verus! {

/// Why a completion stopped.
#[derive(Debug, Clone, Copy, PartialEq, Eq, Structural)]
pub enum StopType {
    NotStopped,
    Eos,
    Limit,
    Word,
}

impl StopType {
    /// The name reported in `stop_type`, as llama.cpp's server names it.
    pub fn as_str(self) -> (s: &'static str)
        ensures
            s@ == stop_type_name(self),
    {
        match self {
            StopType::NotStopped => "none",
            StopType::Eos => "eos",
            StopType::Limit => "limit",
            StopType::Word => "word",
        }
    }
}

pub open spec fn stop_type_name(t: StopType) -> Seq<char> {
    match t {
        StopType::NotStopped => "none"@,
        StopType::Eos => "eos"@,
        StopType::Limit => "limit"@,
        StopType::Word => "word"@,
    }
}

/// Outcome of scanning the generated text for stop words.
#[derive(Debug, Clone, Copy, PartialEq, Eq, Structural)]
pub enum StopScan {
    NoMatch,
    Full { pos: usize, word: usize },
    Partial { pos: usize },
}

/// `needle` occurs in `hay` starting at byte `p`.
pub open spec fn occurs_at(hay: Seq<u8>, needle: Seq<u8>, p: int) -> bool {
    &&& 0 <= p
    &&& p + needle.len() <= hay.len()
    &&& hay.subrange(p, p + needle.len()) == needle
}

/// `p` is the first occurrence of `needle` in `hay` at or after `from`.
pub open spec fn first_occurrence_from(hay: Seq<u8>, needle: Seq<u8>, from: int, p: int) -> bool {
    &&& from <= p
    &&& occurs_at(hay, needle, p)
    &&& forall|q: int| from <= q < p ==> !#[trigger] occurs_at(hay, needle, q)
}

/// `needle` occurs nowhere in `hay` at or after `from`.
pub open spec fn no_occurrence_from(hay: Seq<u8>, needle: Seq<u8>, from: int) -> bool {
    forall|q: int| from <= q ==> !#[trigger] occurs_at(hay, needle, q)
}

/// The first byte of the search window for a stop word of `needle_len` bytes
/// after a token of `last_token_len` bytes: the window covers the stop word
/// plus the last token.
pub open spec fn window_start(hay_len: int, needle_len: int, last_token_len: int) -> int {
    if hay_len > needle_len + last_token_len {
        hay_len - (needle_len + last_token_len)
    } else {
        0
    }
}

/// The last `len` bytes of `text` equal the first `len` bytes of `stop`.
pub open spec fn suffix_is_stop_prefix(text: Seq<u8>, stop: Seq<u8>, len: int) -> bool {
    &&& 1 <= len
    &&& len <= text.len()
    &&& len <= stop.len()
    &&& text.subrange(text.len() - len, text.len() as int) == stop.subrange(0, len)
}

/// The result of the partial-stop search: the start of the longest suffix of
/// `text` that is a prefix of `stop`.
pub open spec fn partial_stop_at(text: Seq<u8>, stop: Seq<u8>, pos: int) -> bool {
    &&& suffix_is_stop_prefix(text, stop, text.len() - pos)
    &&& forall|len: int| len > text.len() - pos ==> !#[trigger] suffix_is_stop_prefix(text, stop, len)
}

pub open spec fn no_partial_stop(text: Seq<u8>, stop: Seq<u8>) -> bool {
    forall|len: int| !#[trigger] suffix_is_stop_prefix(text, stop, len)
}

/// Finds the first occurrence of `needle` in `haystack` at or after `from`.
fn find_from(haystack: &[u8], needle: &[u8], from: usize) -> (r: Option<usize>)
    requires
        needle@.len() > 0,
    ensures
        match r {
            Some(p) => first_occurrence_from(haystack@, needle@, from as int, p as int),
            None => no_occurrence_from(haystack@, needle@, from as int),
        },
{
    if from >= haystack.len() {
        return None;
    }
    let n = needle.len();
    if n > haystack.len() {
        return None;
    }
    let last = haystack.len() - n;
    let mut p = from;
    while p <= last
        invariant
            from <= p,
            n == needle@.len(),
            n > 0,
            last + n == haystack@.len(),
            haystack@.len() <= usize::MAX,
            forall|q: int| from <= q < p ==> !#[trigger] occurs_at(haystack@, needle@, q),
        decreases last + 1 - p,
    {
        let mut k: usize = 0;
        let mut same = true;
        while k < n
            invariant
                k <= n,
                n == needle@.len(),
                p + n <= haystack@.len(),
                haystack@.len() <= usize::MAX,
                same <==> forall|j: int| 0 <= j < k ==> haystack@[p + j] == needle@[j],
            decreases n - k,
        {
            if haystack[p + k] != needle[k] {
                same = false;
            }
            k = k + 1;
        }
        if same {
            assert(haystack@.subrange(p as int, p + n) =~= needle@);
            return Some(p);
        }
        assert(!occurs_at(haystack@, needle@, p as int)) by {
            if occurs_at(haystack@, needle@, p as int) {
                let j = choose|j: int| 0 <= j < n && haystack@[p + j] != needle@[j];
                assert(haystack@.subrange(p as int, p + n)[j] == needle@[j]);
            }
        }
        p = p + 1;
    }
    None
}

/// Finds where a partially generated stop word starts at the end of `text`.
fn find_partial_stop(text: &[u8], stop: &[u8]) -> (r: Option<usize>)
    ensures
        match r {
            Some(p) => p < text@.len() && partial_stop_at(text@, stop@, p as int),
            None => no_partial_stop(text@, stop@),
        },
{
    if text.len() == 0 || stop.len() == 0 {
        return None;
    }
    let tlen = text.len();
    let max_len = if tlen < stop.len() { tlen } else { stop.len() };
    let last = text[tlen - 1];
    let mut len = max_len;
    while len >= 1
        invariant
            len <= max_len,
            tlen == text@.len(),
            max_len <= tlen,
            max_len <= stop@.len(),
            last == text@[tlen - 1],
            forall|l: int| l > len ==> !#[trigger] suffix_is_stop_prefix(text@, stop@, l),
        decreases len,
    {
        if stop[len - 1] == last {
            let mut k: usize = 0;
            let mut same = true;
            let start = tlen - len;
            while k < len
                invariant
                    k <= len,
                    len <= tlen,
                    len <= stop@.len(),
                    start == tlen - len,
                    tlen == text@.len(),
                    same <==> forall|j: int| 0 <= j < k ==> text@[start + j] == stop@[j],
                decreases len - k,
            {
                if text[start + k] != stop[k] {
                    same = false;
                }
                k = k + 1;
            }
            if same {
                assert(text@.subrange(start as int, tlen as int) =~= stop@.subrange(0, len as int));
                return Some(start);
            }
            assert(!suffix_is_stop_prefix(text@, stop@, len as int)) by {
                if suffix_is_stop_prefix(text@, stop@, len as int) {
                    let j = choose|j: int| 0 <= j < len && text@[start + j] != stop@[j];
                    assert(text@.subrange(start as int, tlen as int)[j] == stop@.subrange(0, len as int)[j]);
                }
            }
        } else {
            assert(!suffix_is_stop_prefix(text@, stop@, len as int)) by {
                if suffix_is_stop_prefix(text@, stop@, len as int) {
                    assert(text@.subrange(tlen - len, tlen as int)[len - 1] == stop@.subrange(0, len as int)[len - 1]);
                }
            }
        }
        len = len - 1;
    }
    None
}

/// The UTF-8 bytes of a stop word.
pub open spec fn word_bytes(w: Seq<char>) -> Seq<u8> {
    encode_utf8(w)
}

/// Stop word `j` of `stops` occurs fully at byte `q` of `hay`, inside the
/// window that ends the text.
pub open spec fn full_candidate(
    hay: Seq<u8>,
    stops: Seq<Seq<char>>,
    last_token_len: int,
    j: int,
    q: int,
) -> bool {
    &&& 0 <= j < stops.len()
    &&& word_bytes(stops[j]).len() > 0
    &&& window_start(hay.len() as int, word_bytes(stops[j]).len() as int, last_token_len) <= q
    &&& occurs_at(hay, word_bytes(stops[j]), q)
}

/// `(p1, j1)` comes no later than `(p2, j2)`: earlier position first, then
/// the stop word listed first.
pub open spec fn scan_order_le(p1: int, j1: int, p2: int, j2: int) -> bool {
    p1 < p2 || (p1 == p2 && j1 <= j2)
}

pub open spec fn no_full_candidate(hay: Seq<u8>, stops: Seq<Seq<char>>, last_token_len: int) -> bool {
    forall|j: int, q: int| !#[trigger] full_candidate(hay, stops, last_token_len, j, q)
}

/// The exact result of [`StopMatcher::scan`].
pub open spec fn scan_result(
    hay: Seq<u8>,
    stops: Seq<Seq<char>>,
    last_token_len: int,
    allow_partial: bool,
    r: StopScan,
) -> bool {
    match r {
        StopScan::Full { pos, word } => {
            &&& full_candidate(hay, stops, last_token_len, word as int, pos as int)
            &&& forall|j: int, q: int|
                #[trigger] full_candidate(hay, stops, last_token_len, j, q) ==> scan_order_le(
                    pos as int,
                    word as int,
                    q,
                    j,
                )
        },
        StopScan::Partial { pos } => {
            &&& allow_partial
            &&& no_full_candidate(hay, stops, last_token_len)
            &&& pos < hay.len()
            &&& exists|j: int|
                0 <= j < stops.len() && #[trigger] partial_stop_at(hay, word_bytes(stops[j]), pos as int)
            &&& forall|j: int, p: int|
                0 <= j < stops.len() && #[trigger] partial_stop_at(hay, word_bytes(stops[j]), p) ==> pos <= p
        },
        StopScan::NoMatch => {
            &&& no_full_candidate(hay, stops, last_token_len)
            &&& allow_partial ==> forall|j: int|
                0 <= j < stops.len() ==> #[trigger] no_partial_stop(hay, word_bytes(stops[j]))
        },
    }
}

/// The result of [`StopMatcher::scan`].
pub open spec fn scan_spec(hay: Seq<u8>, stops: Seq<Seq<char>>, last_token_len: int, allow_partial: bool) -> StopScan {
    choose|r: StopScan| scan_result(hay, stops, last_token_len, allow_partial, r)
}

/// A scan has one result.
pub proof fn lemma_scan_unique(
    hay: Seq<u8>,
    stops: Seq<Seq<char>>,
    last_token_len: int,
    allow_partial: bool,
    r: StopScan,
)
    requires
        scan_result(hay, stops, last_token_len, allow_partial, r),
    ensures
        scan_spec(hay, stops, last_token_len, allow_partial) == r,
{
    let c = scan_spec(hay, stops, last_token_len, allow_partial);
    assert(scan_result(hay, stops, last_token_len, allow_partial, c));
    match (r, c) {
        (StopScan::Full { pos: p1, word: w1 }, StopScan::Full { pos: p2, word: w2 }) => {
            assert(scan_order_le(p1 as int, w1 as int, p2 as int, w2 as int));
            assert(scan_order_le(p2 as int, w2 as int, p1 as int, w1 as int));
        },
        (StopScan::Full { pos: p1, word: w1 }, _) => {
            assert(full_candidate(hay, stops, last_token_len, w1 as int, p1 as int));
        },
        (_, StopScan::Full { pos: p2, word: w2 }) => {
            assert(full_candidate(hay, stops, last_token_len, w2 as int, p2 as int));
        },
        (StopScan::Partial { pos: p1 }, StopScan::Partial { pos: p2 }) => {
            let j1 = choose|j: int| 0 <= j < stops.len() && #[trigger] partial_stop_at(hay, word_bytes(stops[j]), p1 as int);
            let j2 = choose|j: int| 0 <= j < stops.len() && #[trigger] partial_stop_at(hay, word_bytes(stops[j]), p2 as int);
            assert(p2 <= p1);
            assert(p1 <= p2);
        },
        (StopScan::Partial { pos: p1 }, StopScan::NoMatch) => {
            let j1 = choose|j: int| 0 <= j < stops.len() && #[trigger] partial_stop_at(hay, word_bytes(stops[j]), p1 as int);
            assert(no_partial_stop(hay, word_bytes(stops[j1])));
            assert(!suffix_is_stop_prefix(hay, word_bytes(stops[j1]), hay.len() - p1));
        },
        (StopScan::NoMatch, StopScan::Partial { pos: p2 }) => {
            let j2 = choose|j: int| 0 <= j < stops.len() && #[trigger] partial_stop_at(hay, word_bytes(stops[j]), p2 as int);
            assert(no_partial_stop(hay, word_bytes(stops[j2])));
            assert(!suffix_is_stop_prefix(hay, word_bytes(stops[j2]), hay.len() - p2));
        },
        _ => {},
    }
}

/// Finds stop words in generated text.
#[derive(Debug, Clone)]
pub struct StopMatcher {
    stops: Vec<String>,
}

impl View for StopMatcher {
    type V = Seq<Seq<char>>;

    closed spec fn view(&self) -> Seq<Seq<char>> {
        self.stops@.map_values(|s: String| s@)
    }
}

impl StopMatcher {
    pub fn new(stops: Vec<String>) -> (m: Self)
        ensures
            m@ == stops@.map_values(|s: String| s@),
    {
        StopMatcher { stops }
    }

    pub fn stops(&self) -> (r: &[String])
        ensures
            r@.map_values(|s: String| s@) == self@,
    {
        self.stops.as_slice()
    }

    /// Looks for a stop word in `text`. A full match is searched only in the
    /// window made of the stop word's length plus the last token's length at
    /// the end of the text; the earliest match wins, and on a tie the stop
    /// word listed first. Without a full match and when `allow_partial` is
    /// set, reports where the longest tail of the text that begins some stop
    /// word starts (the earliest such position over all stop words).
    pub fn scan(&self, text: &str, last_token_len: usize, allow_partial: bool) -> (r: StopScan)
        ensures
            scan_result(encode_utf8(text@), self@, last_token_len as int, allow_partial, r),
            r == scan_spec(encode_utf8(text@), self@, last_token_len as int, allow_partial),
    {
        let haystack = text.as_bytes();
        let ghost hay = haystack@;
        let ghost stops = self@;
        let ghost last = last_token_len as int;
        let n_stops = self.stops.len();
        let mut best: Option<(usize, usize)> = None;
        let mut index: usize = 0;
        while index < n_stops
            invariant
                n_stops == self.stops@.len(),
                stops == self@,
                stops == self.stops@.map_values(|s: String| s@),
                hay == haystack@,
                last == last_token_len as int,
                index <= n_stops,
                match best {
                    Some((p, w)) => {
                        &&& w < index
                        &&& full_candidate(hay, stops, last, w as int, p as int)
                        &&& forall|j: int, q: int|
                            0 <= j < index && #[trigger] full_candidate(hay, stops, last, j, q)
                                ==> scan_order_le(p as int, w as int, q, j)
                    },
                    None => forall|j: int, q: int|
                        0 <= j < index ==> !#[trigger] full_candidate(hay, stops, last, j, q),
                },
            decreases n_stops - index,
        {
            let needle = self.stops[index].as_str().as_bytes();
            assert(needle@ == word_bytes(stops[index as int]));
            if needle.len() > 0 {
                let hlen = haystack.len();
                let nlen = needle.len();
                let from = if nlen <= usize::MAX - last_token_len && hlen > nlen + last_token_len {
                    hlen - (nlen + last_token_len)
                } else {
                    0
                };
                assert(from == window_start(hay.len() as int, needle@.len() as int, last));
                match find_from(haystack, needle, from) {
                    Some(pos) => {
                        let better = match best {
                            Some((best_pos, _)) => pos < best_pos,
                            None => true,
                        };
                        if better {
                            best = Some((pos, index));
                        }
                    },
                    None => {},
                }
            }
            index = index + 1;
        }
        match best {
            Some((pos, word)) => {
                proof {
                    lemma_scan_unique(hay, stops, last, allow_partial, StopScan::Full { pos, word });
                }
                return StopScan::Full { pos, word };
            },
            None => {},
        }
        if allow_partial {
            let mut best_pos: Option<usize> = None;
            let mut index: usize = 0;
            while index < n_stops
                invariant
                    n_stops == self.stops@.len(),
                    stops == self.stops@.map_values(|s: String| s@),
                    hay == haystack@,
                    index <= n_stops,
                    match best_pos {
                        Some(p) => {
                            &&& p < hay.len()
                            &&& exists|j: int|
                                0 <= j < index && #[trigger] partial_stop_at(hay, word_bytes(stops[j]), p as int)
                            &&& forall|j: int, q: int|
                                0 <= j < index && #[trigger] partial_stop_at(hay, word_bytes(stops[j]), q)
                                    ==> p <= q
                        },
                        None => forall|j: int|
                            0 <= j < index ==> #[trigger] no_partial_stop(hay, word_bytes(stops[j])),
                    },
                decreases n_stops - index,
            {
                let stop = self.stops[index].as_str().as_bytes();
                assert(stop@ == word_bytes(stops[index as int]));
                let ghost old_best = best_pos;
                match find_partial_stop(haystack, stop) {
                    Some(pos) => {
                        let better = match best_pos {
                            Some(current) => pos < current,
                            None => true,
                        };
                        proof {
                            assert forall|q: int|
                                #[trigger] partial_stop_at(hay, word_bytes(stops[index as int]), q) implies q
                                == pos by {
                                if q < pos {
                                    assert(!suffix_is_stop_prefix(hay, word_bytes(stops[index as int]), hay.len() - q));
                                } else if q > pos {
                                    assert(!suffix_is_stop_prefix(hay, word_bytes(stops[index as int]), hay.len() - pos));
                                }
                            }
                        }
                        if better {
                            best_pos = Some(pos);
                        }
                        assert(0 <= index < index + 1 && partial_stop_at(hay, word_bytes(stops[index as int]), pos as int));
                        let ghost bp = best_pos.unwrap();
                        assert(bp < hay.len());
                        assert(exists|j: int|
                                0 <= j < index + 1 && #[trigger] partial_stop_at(hay, word_bytes(stops[j]), bp as int));
                        assert forall|j: int, q: int|
                                0 <= j < index + 1 && #[trigger] partial_stop_at(hay, word_bytes(stops[j]), q)
                                    implies bp <= q by {
                            if j < index {
                                if old_best.is_none() {
                                    assert(no_partial_stop(hay, word_bytes(stops[j])));
                                    assert(!suffix_is_stop_prefix(hay, word_bytes(stops[j]), hay.len() - q));
                                }
                            }
                        }
                    },
                    None => {},
                }
                index = index + 1;
            }
            match best_pos {
                Some(pos) => {
                    proof {
                        lemma_scan_unique(hay, stops, last, allow_partial, StopScan::Partial { pos });
                    }
                    return StopScan::Partial { pos };
                },
                None => {},
            }
        }
        proof {
            lemma_scan_unique(hay, stops, last, allow_partial, StopScan::NoMatch);
        }
        StopScan::NoMatch
    }
}

/// Calls `String::from_utf8`, keeping the string and dropping the error.
/// Stated: a string that comes back encodes exactly the bytes given, and
/// none comes back only for bytes that are not well-formed UTF-8.
#[verifier::external_body]
pub(crate) fn string_from_utf8(bytes: Vec<u8>) -> (r: Option<String>)
    ensures
        match r {
            Some(s) => encode_utf8(s@) == bytes@,
            None => !valid_utf8(bytes@),
        },
{
    String::from_utf8(bytes).ok()
}

/// Appends `data[from..to]` to `out`.
fn push_range(out: &mut Vec<u8>, data: &Vec<u8>, from: usize, to: usize)
    requires
        from <= to <= data@.len(),
    ensures
        final(out)@ == old(out)@ + data@.subrange(from as int, to as int),
{
    let mut k = from;
    while k < to
        invariant
            from <= k <= to,
            to <= data@.len(),
            out@ == old(out)@ + data@.subrange(from as int, k as int),
        decreases to - k,
    {
        out.push(data[k]);
        assert(data@.subrange(from as int, k + 1) =~= data@.subrange(from as int, k as int).push(data@[k as int]));
        k = k + 1;
    }
}

/// Turns a stream of byte pieces into UTF-8 text: a character split across
/// pieces is held until it is complete, and every ill-formed sequence becomes
/// U+FFFD.
#[derive(Debug)]
pub struct IncrementalUtf8 {
    pending: Vec<u8>,
}

impl View for IncrementalUtf8 {
    type V = Seq<u8>;

    /// The bytes held back so far.
    closed spec fn view(&self) -> Seq<u8> {
        self.pending@
    }
}

impl Default for IncrementalUtf8 {
    fn default() -> (d: Self)
        ensures
            d@ == Seq::<u8>::empty(),
    {
        IncrementalUtf8 { pending: Vec::new() }
    }
}

/// What [`IncrementalUtf8::push`] does with the held bytes `held` and the
/// new bytes `bytes`: the new held bytes and the released text's bytes.
pub open spec fn utf8_push_result(held: Seq<u8>, bytes: Seq<u8>) -> (Seq<u8>, Option<Seq<u8>>) {
    let scanned = lossy_scan(held + bytes);
    if scanned.1.len() > 0 {
        (scanned.0 + scanned.1, None)
    } else if scanned.0.len() == 0 {
        (Seq::empty(), None)
    } else {
        (Seq::empty(), Some(scanned.0))
    }
}

/// Well-formed UTF-8 pushed into an empty decoder comes out unchanged, and
/// nothing is held back.
pub proof fn law_valid_utf8_passes_through(bytes: Seq<u8>)
    requires
        valid_utf8(bytes),
    ensures
        utf8_push_result(Seq::empty(), bytes) == (if bytes.len() == 0 {
            (Seq::<u8>::empty(), None::<Seq<u8>>)
        } else {
            (Seq::<u8>::empty(), Some(bytes))
        }),
{
    assert(Seq::<u8>::empty() + bytes =~= bytes);
    lemma_lossy_scan_of_valid(bytes);
}

/// The bytes released by a push, if any.
pub open spec fn released_bytes(out: Option<Seq<u8>>) -> Seq<u8> {
    match out {
        Some(b) => b,
        None => Seq::empty(),
    }
}

/// Well-formed UTF-8 split anywhere into two pushes is released whole, in
/// order, with nothing replaced and nothing left held: a character cut
/// between two tokens is joined.
pub proof fn law_split_text_is_joined(a: Seq<u8>, b: Seq<u8>)
    requires
        valid_utf8(a + b),
    ensures
        ({
            let first = utf8_push_result(Seq::empty(), a);
            let second = utf8_push_result(first.0, b);
            &&& second.0.len() == 0
            &&& released_bytes(first.1) + released_bytes(second.1) == a + b
        }),
{
    assert(Seq::<u8>::empty() + a =~= a);
    lemma_lossy_scan_of_valid_prefix(a, b);
    let scanned = lossy_scan(a);
    if scanned.1.len() > 0 {
        assert(scanned.0 + scanned.1 == a);
        lemma_lossy_scan_of_valid(a + b);
        assert(Seq::<u8>::empty() + (a + b) =~= a + b);
    } else {
        assert(scanned.0 =~= a);
        assert(Seq::<u8>::empty() + b =~= b);
        lemma_lossy_scan_of_valid(b);
        if a.len() == 0 {
            assert(Seq::<u8>::empty() + released_bytes(utf8_push_result(Seq::empty(), b).1) =~= a + b);
        }
    }
}

impl IncrementalUtf8 {
    pub fn new() -> (d: Self)
        ensures
            d@ == Seq::<u8>::empty(),
    {
        IncrementalUtf8 { pending: Vec::new() }
    }

    /// Adds `bytes` and releases everything held once it decodes completely;
    /// while the buffer ends inside a character, nothing is released (ill-formed
    /// sequences before it are already replaced in the buffer).
    pub fn push(&mut self, bytes: &[u8]) -> (r: Option<String>)
        ensures
            final(self)@ == utf8_push_result(old(self)@, bytes@).0,
            match utf8_push_result(old(self)@, bytes@).1 {
                Some(out) => r matches Some(s) && encode_utf8(s@) == out,
                None => r is None,
            },
    {
        let mut data: Vec<u8> = Vec::new();
        std::mem::swap(&mut data, &mut self.pending);
        let mut j: usize = 0;
        while j < bytes.len()
            invariant
                j <= bytes@.len(),
                data@ == old(self)@ + bytes@.subrange(0, j as int),
            decreases bytes@.len() - j,
        {
            data.push(bytes[j]);
            assert(bytes@.subrange(0, j + 1) =~= bytes@.subrange(0, j as int).push(bytes@[j as int]));
            j = j + 1;
        }
        assert(bytes@.subrange(0, bytes@.len() as int) =~= bytes@);
        let ghost all = data@;
        let n = data.len();
        let mut out: Vec<u8> = Vec::new();
        let mut i: usize = 0;
        assert(all.subrange(0, n as int) =~= all);
        while i < n
            invariant
                i <= n,
                n == data@.len(),
                data@ == all,
                all == old(self)@ + bytes@,
                self.pending@ == Seq::<u8>::empty(),
                valid_utf8(out@),
                lossy_scan(all) == (out@ + lossy_scan(all.subrange(i as int, n as int)).0, lossy_scan(
                    all.subrange(i as int, n as int),
                ).1),
            decreases n - i,
        {
            let ghost rest = all.subrange(i as int, n as int);
            proof {
                lemma_step_bounds(rest);
            }
            match utf8_step_at(&data, i) {
                Utf8Step::Char(k) => {
                    proof {
                        lemma_char_step_valid(rest);
                        assert(rest.subrange(k as int, rest.len() as int) =~= all.subrange(i + k, n as int));
                        assert(rest.subrange(0, k as int) =~= all.subrange(i as int, i + k));
                        valid_utf8_concat(out@, rest.subrange(0, k as int));
                    }
                    push_range(&mut out, &data, i, i + k);
                    i = i + k;
                },
                Utf8Step::Invalid(k) => {
                    proof {
                        lemma_replacement_valid();
                        assert(rest.subrange(k as int, rest.len() as int) =~= all.subrange(i + k, n as int));
                        valid_utf8_concat(out@, replacement_bytes());
                    }
                    let ghost before = out@;
                    out.push(0xef);
                    out.push(0xbf);
                    out.push(0xbd);
                    assert(out@ =~= before + replacement_bytes());
                    i = i + k;
                },
                Utf8Step::Incomplete => {
                    push_range(&mut out, &data, i, n);
                    self.pending = out;
                    return None;
                },
            }
        }
        assert(all.subrange(n as int, n as int) =~= Seq::<u8>::empty());
        if out.len() == 0 {
            return None;
        }
        string_from_utf8(out)
    }

    pub fn is_empty(&self) -> (r: bool)
        ensures
            r == (self@.len() == 0),
    {
        self.pending.len() == 0
    }
}

/// The prompt of a completion request: text, or token ids.
#[derive(Debug, Clone, PartialEq, Eq)]
pub enum PromptInput {
    Text(String),
    Tokens(Vec<i32>),
}

/// `token` clamped into the `i32` range.
pub open spec fn clamp_token_spec(token: i64) -> i32 {
    if token < i32::MIN {
        i32::MIN
    } else if token > i32::MAX {
        i32::MAX
    } else {
        token as i32
    }
}

pub fn clamp_token(token: i64) -> (r: i32)
    ensures
        r == clamp_token_spec(token),
{
    if token < -0x8000_0000i64 {
        -0x8000_0000i32
    } else if token > 0x7fff_ffffi64 {
        0x7fff_ffffi32
    } else {
        token as i32
    }
}

/// An error with the given code and message.
pub open spec fn is_error(e: TaskError, code: u16, message: Seq<char>) -> bool {
    &&& e.code == code
    &&& e.error_type@ == error_type_for(code)
    &&& e.message@ == message
}

/// What `"prompt"` parses to.
pub open spec fn prompt_spec(payload: JsonValue, r: Result<PromptInput, TaskError>) -> bool {
    match json_get(payload, "prompt"@) {
        Some(JsonValue::String(text)) => r matches Ok(PromptInput::Text(t)) && t@ == text@,
        Some(JsonValue::Array(items)) => if items@.len() == 0 {
            r matches Err(e) && is_error(e, 400, "\"prompt\" must not be empty"@)
        } else if forall|i: int| 0 <= i < items@.len() ==> #[trigger] value_as_i64(items@[i]) is Some {
            r matches Ok(PromptInput::Tokens(toks)) && toks@ == items@.map_values(
                |v: JsonValue| clamp_token_spec(value_as_i64(v)->0),
            )
        } else {
            r matches Err(e) && is_error(e, 501, "multiple prompts not supported yet"@)
        },
        None | Some(JsonValue::Null) => r matches Err(e) && is_error(e, 400, "\"prompt\" is required"@),
        Some(_) => r matches Err(e) && is_error(
            e,
            400,
            "\"prompt\" must be a string or a list of tokens"@,
        ),
    }
}

/// Reads `"prompt"`: a string, or a non-empty array of token ids (each
/// clamped into `i32`); an array holding anything else is a batch of prompts,
/// which is not supported.
pub fn parse_prompt(payload: &JsonValue) -> (r: Result<PromptInput, TaskError>)
    ensures
        prompt_spec(*payload, r),
{
    match payload.get("prompt") {
        Some(JsonValue::String(text)) => Ok(PromptInput::Text(text.clone())),
        Some(JsonValue::Array(items)) => {
            if items.len() == 0 {
                return Err(TaskError::invalid_request(String::from_str("\"prompt\" must not be empty")));
            }
            let mut tokens: Vec<i32> = Vec::new();
            let mut i: usize = 0;
            while i < items.len()
                invariant
                    i <= items@.len(),
                    json_get(*payload, "prompt"@) == Some(JsonValue::Array(*items)),
                    tokens@.len() == i,
                    forall|j: int| 0 <= j < i ==> #[trigger] value_as_i64(items@[j]) is Some,
                    forall|j: int|
                        0 <= j < i ==> tokens@[j] == clamp_token_spec(
                            (#[trigger] value_as_i64(items@[j]))->0,
                        ),
                decreases items@.len() - i,
            {
                match items[i].as_i64() {
                    Some(token) => {
                        tokens.push(clamp_token(token));
                    },
                    None => {
                        assert(!(value_as_i64(items@[i as int]) is Some));
                        return Err(
                            TaskError::not_supported(String::from_str("multiple prompts not supported yet")),
                        );
                    },
                }
                i = i + 1;
            }
            assert(tokens@ =~= items@.map_values(
                |v: JsonValue| clamp_token_spec(value_as_i64(v)->0),
            ));
            Ok(PromptInput::Tokens(tokens))
        },
        None | Some(JsonValue::Null) => Err(TaskError::invalid_request(String::from_str("\"prompt\" is required"))),
        Some(_) => Err(
            TaskError::invalid_request(String::from_str("\"prompt\" must be a string or a list of tokens")),
        ),
    }
}

/// An entry of `"stop"` that is accepted: a string, `null`, `[]` or `{}`.
pub open spec fn stop_item_ok(v: JsonValue) -> bool {
    match v {
        JsonValue::String(_) => true,
        JsonValue::Null => true,
        JsonValue::Array(inner) => inner@.len() == 0,
        JsonValue::Object(inner) => inner@.len() == 0,
        _ => false,
    }
}

pub open spec fn all_stop_items_ok(items: Seq<JsonValue>) -> bool {
    forall|i: int| 0 <= i < items.len() ==> #[trigger] stop_item_ok(items[i])
}

/// The non-empty strings among `items`, in order.
pub open spec fn stop_words(items: Seq<JsonValue>) -> Seq<Seq<char>>
    decreases items.len(),
{
    if items.len() == 0 {
        Seq::empty()
    } else {
        let rest = stop_words(items.drop_last());
        match items.last() {
            JsonValue::String(w) => if w@.len() > 0 {
                rest.push(w@)
            } else {
                rest
            },
            _ => rest,
        }
    }
}

/// What `"stop"` parses to.
pub open spec fn stop_spec(payload: JsonValue, r: Result<Vec<String>, TaskError>) -> bool {
    match json_get(payload, "stop"@) {
        Some(JsonValue::Array(items)) => if all_stop_items_ok(items@) {
            r matches Ok(stops) && stops@.map_values(|s: String| s@) == stop_words(items@)
        } else {
            r matches Err(e) && is_error(e, 400, "\"stop\" must be an array of strings"@)
        },
        _ => r matches Ok(stops) && stops@.len() == 0,
    }
}

/// The error for a `"stop"` array whose entry `i` is not accepted.
fn stop_error(payload: &JsonValue, items: &Vec<JsonValue>, i: usize) -> (e: TaskError)
    requires
        json_get(*payload, "stop"@) == Some(JsonValue::Array(*items)),
        i < items@.len(),
        !stop_item_ok(items@[i as int]),
    ensures
        !all_stop_items_ok(items@),
        is_error(e, 400, "\"stop\" must be an array of strings"@),
{
    TaskError::invalid_request(String::from_str("\"stop\" must be an array of strings"))
}

/// Reads `"stop"`: an array of strings, where empty strings, `null`, `[]`
/// and `{}` are dropped. Anything but an array means no stop words.
pub fn parse_stop(payload: &JsonValue) -> (r: Result<Vec<String>, TaskError>)
    ensures
        stop_spec(*payload, r),
{
    let items = match payload.get("stop") {
        Some(JsonValue::Array(items)) => items,
        _ => {
            return Ok(Vec::new());
        },
    };
    let mut stop: Vec<String> = Vec::new();
    let mut i: usize = 0;
    while i < items.len()
        invariant
            i <= items@.len(),
            json_get(*payload, "stop"@) == Some(JsonValue::Array(*items)),
            forall|j: int| 0 <= j < i ==> #[trigger] stop_item_ok(items@[j]),
            stop@.map_values(|s: String| s@) == stop_words(items@.subrange(0, i as int)),
        decreases items@.len() - i,
    {
        let ghost before = stop@;
        assert(items@.subrange(0, i + 1).drop_last() =~= items@.subrange(0, i as int));
        let accepted = match &items[i] {
            JsonValue::String(word) => {
                if !word.as_str().is_empty() {
                    stop.push(word.clone());
                    assert(stop@.map_values(|s: String| s@) =~= before.map_values(|s: String| s@).push(word@));
                }
                true
            },
            JsonValue::Null => true,
            JsonValue::Array(inner) => inner.len() == 0,
            JsonValue::Object(inner) => inner.len() == 0,
            _ => false,
        };
        if !accepted {
            let e = stop_error(payload, items, i);
            return Err(e);
        }
        i = i + 1;
    }
    assert(items@.subrange(0, items@.len() as int) =~= items@);
    Ok(stop)
}

/// The completion request fields that do not depend on sampling.
#[derive(Debug, Clone)]
pub struct CompletionRequest {
    pub prompt: PromptInput,
    pub n_predict: i32,
    pub t_max_predict_ms: i64,
    pub return_tokens: bool,
    pub stream: bool,
    pub timings_per_token: bool,
    pub cache_prompt: bool,
    pub stop: Vec<String>,
    pub model_name: String,
    /// The id of the OpenAI response objects: `chatcmpl-` and a random part.
    pub cmpl_id: String,
}

/// A lowercase hexadecimal digit.
pub open spec fn is_lower_hex(c: char) -> bool {
    ('0' <= c <= '9') || ('a' <= c <= 'f')
}

/// A UUID in its simple form: 32 lowercase hexadecimal digits.
pub open spec fn is_simple_uuid(s: Seq<char>) -> bool {
    &&& s.len() == 32
    &&& forall|i: int| 0 <= i < s.len() ==> #[trigger] is_lower_hex(s[i])
}

/// A random (version 4, RFC 4122 variant) UUID in its simple form: the
/// thirteenth digit is the version, `4`, and the seventeenth carries the
/// variant bits `10`, so it is one of `8`, `9`, `a`, `b`.
pub open spec fn is_simple_uuid_v4(s: Seq<char>) -> bool {
    &&& is_simple_uuid(s)
    &&& s[12] == '4'
    &&& (s[16] == '8' || s[16] == '9' || s[16] == 'a' || s[16] == 'b')
}

/// A completion id: `chatcmpl-` followed by a random UUID in its simple form.
pub open spec fn is_completion_id(s: Seq<char>) -> bool {
    &&& "chatcmpl-"@.is_prefix_of(s)
    &&& is_simple_uuid_v4(s.subrange(9, s.len() as int))
}

/// A fresh random id: a version 4 UUID in its simple form.
///
/// Calls `uuid::Uuid::new_v4` and formats it with `simple()`, whose
/// `Display` writes the 16 bytes as 32 lowercase hexadecimal digits.
/// `new_v4` masks random bits so that the version nibble is 4 and the
/// variant bits are `10`: stated are the 32 lowercase digits, the `4` and
/// the variant digit. Which other digits come is not stated: they are random.
#[verifier::external_body]
fn random_id() -> (r: String)
    ensures
        is_simple_uuid_v4(r@),
{
    uuid::Uuid::new_v4().simple().to_string()
}

/// A fresh completion id with a random part.
pub fn new_completion_id() -> (r: String)
    ensures
        is_completion_id(r@),
{
    let suffix = random_id();
    let id = completion_id(suffix.as_str());
    proof {
        reveal_strlit("chatcmpl-");
        assert(id@.subrange(9, id@.len() as int) =~= suffix@);
    }
    id
}

/// The id of a completion whose random part is `suffix`.
pub fn completion_id(suffix: &str) -> (r: String)
    ensures
        r@ == "chatcmpl-"@ + suffix@,
{
    let mut id = String::from_str("chatcmpl-");
    id.append(suffix);
    id
}

/// The integer field `key`, or `default`.
pub open spec fn i32_field(payload: JsonValue, key: Seq<char>, default: i32) -> i32 {
    match number_i64_spec(payload, key) {
        Some(v) => v as i32,
        None => default,
    }
}

/// The boolean field `key`, or `default`.
pub open spec fn bool_field(payload: JsonValue, key: Seq<char>, default: bool) -> bool {
    match field_spec(payload, key) {
        Some(JsonValue::Bool(b)) => b,
        _ => default,
    }
}

/// `n_predict` wins over `max_completion_tokens`, which wins over
/// `max_tokens`, which wins over the server default.
pub open spec fn n_predict_spec(payload: JsonValue, default_n_predict: i32) -> i32 {
    let max_tokens = i32_field(payload, "max_tokens"@, default_n_predict);
    let max_completion_tokens = i32_field(payload, "max_completion_tokens"@, max_tokens);
    i32_field(payload, "n_predict"@, max_completion_tokens)
}

impl CompletionRequest {
    /// Reads a completion request: the prompt and stop words (whose errors
    /// are reported in that order), the prediction limit, the flags, and the
    /// model name, which falls back to the server's model id.
    pub fn from_payload(payload: &JsonValue, default_n_predict: i32, model_id: &str) -> (r: Result<
        Self,
        TaskError,
    >)
        ensures
            match r {
                Ok(req) => {
                    &&& prompt_spec(*payload, Ok(req.prompt))
                    &&& stop_spec(*payload, Ok(req.stop))
                    &&& req.n_predict == n_predict_spec(*payload, default_n_predict)
                    &&& req.t_max_predict_ms == match number_i64_spec(*payload, "t_max_predict_ms"@) {
                        Some(v) => v,
                        None => -1i64,
                    }
                    &&& req.return_tokens == bool_field(*payload, "return_tokens"@, false)
                    &&& req.stream == bool_field(*payload, "stream"@, false)
                    &&& req.timings_per_token == bool_field(*payload, "timings_per_token"@, false)
                    &&& req.cache_prompt == bool_field(*payload, "cache_prompt"@, true)
                    &&& is_completion_id(req.cmpl_id@)
                    &&& req.model_name@ == match json_get(*payload, "model"@) {
                        Some(JsonValue::String(m)) => m@,
                        _ => model_id@,
                    }
                },
                Err(e) => prompt_spec(*payload, Err(e)) || (exists|p: PromptInput|
                    prompt_spec(*payload, Ok(p))) && stop_spec(*payload, Err(e)),
            },
    {
        let prompt = match parse_prompt(payload) {
            Ok(p) => p,
            Err(e) => {
                return Err(e);
            },
        };
        let stop = match parse_stop(payload) {
            Ok(s) => s,
            Err(e) => {
                return Err(e);
            },
        };
        let max_tokens = json_i32(payload, "max_tokens", default_n_predict);
        let max_completion_tokens = json_i32(payload, "max_completion_tokens", max_tokens);
        let n_predict = json_i32(payload, "n_predict", max_completion_tokens);
        let model_name = match payload.get("model") {
            Some(value) => match value.as_str() {
                Some(name) => String::from_str(name),
                None => String::from_str(model_id),
            },
            None => String::from_str(model_id),
        };
        Ok(CompletionRequest {
            prompt,
            n_predict,
            t_max_predict_ms: json_i64(payload, "t_max_predict_ms", -1),
            return_tokens: json_bool(payload, "return_tokens", false),
            stream: json_bool(payload, "stream", false),
            timings_per_token: json_bool(payload, "timings_per_token", false),
            cache_prompt: json_bool(payload, "cache_prompt", true),
            stop,
            model_name,
            cmpl_id: new_completion_id(),
        })
    }
}

} // verus!
