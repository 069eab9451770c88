//! A whole completion run: the generation state driven token by token, with
//! a record of the byte pieces it was fed and of the chunks it handed out
//! for streaming.
use vstd::prelude::*;
use vstd::utf8::{decode_utf8, encode_utf8};
use vstd::utf8::{is_char_boundary, valid_utf8};
use crate::engine::completion::{
    lemma_scan_unique, scan_spec, utf8_push_result, IncrementalUtf8, StopMatcher, StopScan, StopType,
};
use crate::engine::completion_json::CompletionChunk;
use crate::engine::runtime::{
    flush_held_text, floor_char_boundary, free_of_stops, law_flushed_text_has_no_stop_word,
    law_generation_starts_stop_safe, lemma_floor_char_boundary, limits_applied, release_spec,
    released_chars, released_len, stop_safe, GenerationState, TokenStep,
};

verus! {

broadcast use vstd::utf8::group_utf8_lib;

/// The text of a run: what was released, what is held for a possible stop
/// word, and the bytes of an unfinished character.
pub struct TextProgress {
    pub content: Seq<char>,
    pub unsent: Seq<char>,
    pub pending: Seq<u8>,
}

/// How one token's bytes move the text on: they are decoded, and once no
/// character is left unfinished the held text is scanned for the stop words
/// and what none of them can claim is released.
pub open spec fn text_step(stops: Seq<Seq<char>>, t: TextProgress, piece: Seq<u8>) -> TextProgress {
    let pushed = utf8_push_result(t.pending, piece);
    if pushed.0.len() > 0 {
        TextProgress { content: t.content, unsent: t.unsent, pending: pushed.0 }
    } else {
        let held = encode_utf8(t.unsent + released_chars(pushed.1));
        let out = release_spec(held, scan_spec(held, stops, released_len(pushed.1), true));
        TextProgress {
            content: t.content + decode_utf8(out.0),
            unsent: decode_utf8(out.1),
            pending: Seq::empty(),
        }
    }
}

/// The text after the byte pieces `pieces`, in order, from an empty start.
pub open spec fn text_run(stops: Seq<Seq<char>>, pieces: Seq<Seq<u8>>) -> TextProgress
    decreases pieces.len(),
{
    if pieces.len() == 0 {
        TextProgress { content: Seq::empty(), unsent: Seq::empty(), pending: Seq::empty() }
    } else {
        text_step(stops, text_run(stops, pieces.drop_last()), pieces.last())
    }
}

/// The content of a finished run: the released text and then whatever was
/// still held for a stop word that never completed.
pub open spec fn finished_content(stops: Seq<Seq<char>>, pieces: Seq<Seq<u8>>) -> Seq<char> {
    text_run(stops, pieces).content + text_run(stops, pieces).unsent
}

/// The token with bytes `piece` completes a stop word: the scan of the held
/// text finds one in full.
pub open spec fn fires_at_step(stops: Seq<Seq<char>>, t: TextProgress, piece: Seq<u8>) -> bool {
    let pushed = utf8_push_result(t.pending, piece);
    &&& pushed.0.len() == 0
    &&& scan_spec(
        encode_utf8(t.unsent + released_chars(pushed.1)),
        stops,
        released_len(pushed.1),
        true,
    ) is Full
}

/// Some token of `pieces` completed a stop word.
pub open spec fn word_fired(stops: Seq<Seq<char>>, pieces: Seq<Seq<u8>>) -> bool
    decreases pieces.len(),
{
    pieces.len() > 0 && (word_fired(stops, pieces.drop_last()) || fires_at_step(
        stops,
        text_run(stops, pieces.drop_last()),
        pieces.last(),
    ))
}

/// The chunks' texts one after another.
pub open spec fn joined(chunks: Seq<Seq<char>>) -> Seq<char>
    decreases chunks.len(),
{
    if chunks.len() == 0 {
        Seq::empty()
    } else {
        joined(chunks.drop_last()) + chunks.last()
    }
}

proof fn lemma_joined_push(chunks: Seq<Seq<char>>, c: Seq<char>)
    ensures
        joined(chunks.push(c)) == joined(chunks) + c,
{
    assert(chunks.push(c).drop_last() =~= chunks);
}

proof fn lemma_text_run_push(stops: Seq<Seq<char>>, pieces: Seq<Seq<u8>>, p: Seq<u8>)
    ensures
        text_run(stops, pieces.push(p)) == text_step(stops, text_run(stops, pieces), p),
{
    assert(pieces.push(p).drop_last() =~= pieces);
}

proof fn lemma_floor_is_boundary(b: Seq<u8>, len: int)
    requires
        valid_utf8(b),
    ensures
        is_char_boundary(b, floor_char_boundary(b, len)),
    decreases if len > b.len() { len + 1 } else if len < 0 { 0 } else { len },
{
    if len > 0 {
        if len > b.len() {
            lemma_floor_is_boundary(b, b.len() as int);
        } else if !is_char_boundary(b, len) {
            lemma_floor_is_boundary(b, len - 1);
        }
    }
}

/// Without stop words a scan finds nothing.
proof fn lemma_no_stops_no_match(hay: Seq<u8>, last_token_len: int)
    ensures
        scan_spec(hay, Seq::empty(), last_token_len, true) == StopScan::NoMatch,
{
    lemma_scan_unique(hay, Seq::empty(), last_token_len, true, StopScan::NoMatch);
}

/// Released text only grows: the content after some of the pieces is a
/// prefix of the content after all of them.
proof fn lemma_content_grows(stops: Seq<Seq<char>>, pieces: Seq<Seq<u8>>, k: int)
    requires
        0 <= k <= pieces.len(),
    ensures
        text_run(stops, pieces.take(k)).content.is_prefix_of(text_run(stops, pieces).content),
    decreases pieces.len(),
{
    if k == pieces.len() {
        assert(pieces.take(k) =~= pieces);
    } else {
        let rest = pieces.drop_last();
        assert(rest.take(k) =~= pieces.take(k));
        lemma_content_grows(stops, rest, k);
        let t = text_run(stops, rest);
        let pushed = utf8_push_result(t.pending, pieces.last());
        if pushed.0.len() == 0 {
            let held = encode_utf8(t.unsent + released_chars(pushed.1));
            let out = release_spec(held, scan_spec(held, stops, released_len(pushed.1), true));
            assert(t.content.is_prefix_of(t.content + decode_utf8(out.0)));
        }
    }
}

/// A token's step without stop words: everything decoded is released.
proof fn lemma_free_step(f: TextProgress, p: Seq<u8>)
    requires
        f.unsent.len() == 0,
    ensures
        ({
            let pushed = utf8_push_result(f.pending, p);
            let r = text_step(Seq::empty(), f, p);
            &&& r.unsent.len() == 0
            &&& r.pending == pushed.0
            &&& r.content == if pushed.0.len() > 0 {
                f.content
            } else {
                f.content + released_chars(pushed.1)
            }
        }),
{
    let pushed = utf8_push_result(f.pending, p);
    if pushed.0.len() == 0 {
        let rc = released_chars(pushed.1);
        let held = encode_utf8(f.unsent + rc);
        lemma_no_stops_no_match(held, released_len(pushed.1));
        assert(f.unsent + rc =~= rc);
        assert(decode_utf8(Seq::<u8>::empty()) =~= Seq::<char>::empty());
    }
}

/// A token's step with stop words: the released and held text together
/// are the text before plus the token's, unless a stop word fires, and
/// then a prefix of it.
proof fn lemma_stop_step(stops: Seq<Seq<char>>, t: TextProgress, p: Seq<u8>)
    ensures
        ({
            let pushed = utf8_push_result(t.pending, p);
            let r = text_step(stops, t, p);
            let whole = t.content + (t.unsent + released_chars(pushed.1));
            &&& r.pending == pushed.0
            &&& pushed.0.len() > 0 ==> r.content == t.content && r.unsent == t.unsent
            &&& pushed.0.len() == 0 ==> (r.content + r.unsent).is_prefix_of(whole)
            &&& (pushed.0.len() == 0 && !fires_at_step(stops, t, p)) ==> r.content + r.unsent
                == whole
        }),
{
    let pushed = utf8_push_result(t.pending, p);
    if pushed.0.len() == 0 {
        let rc = released_chars(pushed.1);
        let held = encode_utf8(t.unsent + rc);
        let scan = scan_spec(held, stops, released_len(pushed.1), true);
        let r = text_step(stops, t, p);
        assert(decode_utf8(held) == t.unsent + rc);
        match scan {
            StopScan::Full { pos, .. } => {
                lemma_floor_char_boundary(held, pos as int);
                let cut = floor_char_boundary(held, pos as int);
                lemma_floor_is_boundary(held, pos as int);
                vstd::utf8::decode_utf8_split(held, cut);
                assert(decode_utf8(Seq::<u8>::empty()) =~= Seq::<char>::empty());
                assert(r.content + r.unsent =~= t.content + decode_utf8(held.subrange(0, cut)));
                assert(t.content + (t.unsent + rc) =~= (t.content + decode_utf8(held.subrange(0, cut)))
                    + decode_utf8(held.subrange(cut, held.len() as int)));
            },
            StopScan::Partial { pos } => {
                lemma_floor_char_boundary(held, pos as int);
                let cut = floor_char_boundary(held, pos as int);
                lemma_floor_is_boundary(held, pos as int);
                vstd::utf8::decode_utf8_split(held, cut);
                assert(r.content + r.unsent =~= t.content + (t.unsent + rc));
            },
            StopScan::NoMatch => {
                assert(decode_utf8(Seq::<u8>::empty()) =~= Seq::<char>::empty());
                assert(r.content + r.unsent =~= t.content + (t.unsent + rc));
            },
        }
    }
}

/// The text of a run with stop words against the same pieces without any:
/// the decoder holds the same bytes, and until a stop word fires, the
/// released and held text together are the text without stop words; the
/// token that fires one releases a prefix of it.
proof fn lemma_stops_keep_a_prefix(stops: Seq<Seq<char>>, pieces: Seq<Seq<u8>>)
    ensures
        text_run(stops, pieces).pending == text_run(Seq::empty(), pieces).pending,
        text_run(Seq::empty(), pieces).unsent.len() == 0,
        !word_fired(stops, pieces) ==> text_run(stops, pieces).content + text_run(stops, pieces).unsent
            == text_run(Seq::empty(), pieces).content,
        (pieces.len() == 0 || !word_fired(stops, pieces.drop_last())) ==> (text_run(stops, pieces).content
            + text_run(stops, pieces).unsent).is_prefix_of(text_run(Seq::empty(), pieces).content),
    decreases pieces.len(),
{
    let none: Seq<Seq<char>> = Seq::empty();
    if pieces.len() == 0 {
        assert(Seq::<char>::empty() + Seq::<char>::empty() =~= Seq::<char>::empty());
    } else {
        let rest = pieces.drop_last();
        let p = pieces.last();
        lemma_stops_keep_a_prefix(stops, rest);
        let t = text_run(stops, rest);
        let f = text_run(none, rest);
        lemma_free_step(f, p);
        lemma_stop_step(stops, t, p);
        let pushed = utf8_push_result(t.pending, p);
        let rc = released_chars(pushed.1);
        if !word_fired(stops, rest) {
            assert(t.content + (t.unsent + rc) =~= (t.content + t.unsent) + rc);
        }
    }
}

/// One completion: its generation state, the decoder and stop words it
/// uses, whether it streams, and (for the proofs) the pieces it was fed and
/// the chunks it handed out.
pub struct CompletionRun {
    state: GenerationState,
    utf8: IncrementalUtf8,
    stops: StopMatcher,
    stream: bool,
    finished: bool,
    n_prompt: i32,
    pieces: Ghost<Seq<Seq<u8>>>,
    chunks: Ghost<Seq<Seq<char>>>,
}

impl CompletionRun {
    pub closed spec fn generation(&self) -> GenerationState {
        self.state
    }

    pub closed spec fn stop_words(&self) -> Seq<Seq<char>> {
        self.stops@
    }

    pub closed spec fn is_streaming(&self) -> bool {
        self.stream
    }

    pub closed spec fn is_finished(&self) -> bool {
        self.finished
    }

    /// The number of tokens of the prompt.
    pub closed spec fn prompt_len(&self) -> i32 {
        self.n_prompt
    }

    /// The bytes of the tokens fed so far that did not end the generation.
    pub closed spec fn pieces(&self) -> Seq<Seq<u8>> {
        self.pieces@
    }

    /// The texts handed out for streaming, in order.
    pub closed spec fn chunks(&self) -> Seq<Seq<char>> {
        self.chunks@
    }

    /// The run's text is what its pieces make of it, a stop word leaves
    /// nothing held and ends the run (no piece follows the one that completed
    /// it), and a streaming run has handed out exactly its content.
    pub closed spec fn wf(&self) -> bool {
        let t = text_run(self.stops@, self.pieces@);
        &&& !self.finished ==> {
            &&& self.state.content@ == t.content
            &&& self.state.unsent@ == t.unsent
            &&& self.utf8@ == t.pending
        }
        &&& self.finished ==> self.state.content@ == finished_content(self.stops@, self.pieces@)
        &&& self.state.stop_type == StopType::Word ==> self.state.unsent@.len() == 0
        &&& self.state.n_decoded >= 0
        &&& self.state.stop_type == StopType::Word ==> {
            &&& word_fired(self.stops@, self.pieces@)
            &&& self.stops@.contains(self.state.stopping_word@)
        }
        &&& word_fired(self.stops@, self.pieces@) ==> {
            &&& (self.state.stop_type == StopType::Word || self.state.stop_type == StopType::Limit)
            &&& self.stops@.contains(self.state.stopping_word@)
        }
        &&& word_fired(self.stops@, self.pieces@) ==> self.state.unsent@.len() == 0
        &&& free_of_stops(encode_utf8(self.state.content@), self.stops@)
        &&& (!self.finished && !word_fired(self.stops@, self.pieces@)) ==> stop_safe(
            encode_utf8(self.state.content@),
            encode_utf8(self.state.unsent@),
            self.stops@,
        )
        &&& self.pieces@.len() > 0 ==> !word_fired(self.stops@, self.pieces@.drop_last())
        &&& self.stream ==> joined(self.chunks@) == self.state.content@
        &&& !self.stream ==> self.chunks@.len() == 0
    }

    /// A run before its first token, after a prompt of `n_prompt` tokens.
    pub fn new(n_prompt: i32, stops: Vec<String>, stream: bool) -> (r: Self)
        ensures
            r.wf(),
            !r.is_finished(),
            r.is_streaming() == stream,
            r.stop_words() == stops@.map_values(|s: String| s@),
            r.pieces().len() == 0,
            r.chunks().len() == 0,
            r.generation().content@.len() == 0,
            r.generation().unsent@.len() == 0,
            r.generation().tokens@.len() == 0,
            r.generation().n_decoded == 0,
            r.generation().n_past == n_prompt,
            r.prompt_len() == n_prompt,
            r.generation().stop_type == StopType::NotStopped,
            r.generation().stopping_word@.len() == 0,
            !r.generation().truncated,
            !r.generation().has_new_line,
    {
        let r = CompletionRun {
            state: GenerationState::new(n_prompt),
            utf8: IncrementalUtf8::new(),
            stops: StopMatcher::new(stops),
            stream,
            finished: false,
            n_prompt,
            pieces: Ghost(Seq::empty()),
            chunks: Ghost(Seq::empty()),
        };
        proof {
            law_generation_starts_stop_safe(r.stops@);
            assert(encode_utf8(Seq::<char>::empty()) + encode_utf8(Seq::<char>::empty())
                =~= encode_utf8(Seq::<char>::empty()));
        }
        assert(r.state.content@ =~= text_run(r.stops@, r.pieces@).content);
        assert(r.state.unsent@ =~= text_run(r.stops@, r.pieces@).unsent);
        r
    }

    /// The generation state.
    pub fn state(&self) -> (r: &GenerationState)
        ensures
            *r == self.generation(),
    {
        &self.state
    }

    /// A chunk that hands out `content`, released after `token`: it carries
    /// the run's count of decoded tokens and the prompt's length.
    pub fn chunk(&self, content: String, token: i32) -> (c: CompletionChunk)
        ensures
            c.content@ == content@,
            c.token == token,
            c.n_decoded == self.generation().n_decoded,
            c.n_prompt == self.prompt_len(),
    {
        CompletionChunk { content, token, n_decoded: self.state.n_decoded, n_prompt: self.n_prompt }
    }

    /// Whether the run streams its text.
    pub fn streams(&self) -> (r: bool)
        ensures
            r == self.is_streaming(),
    {
        self.stream
    }

    /// The generation state, once the run is over.
    pub fn into_state(self) -> (r: GenerationState)
        ensures
            r == self.generation(),
    {
        self.state
    }

    /// Feeds a sampled token to a run that has not stopped (see
    /// [`GenerationState::accept_token`]); a streaming run hands out the
    /// released text as its next chunk.
    pub fn on_token(
        &mut self,
        token: i32,
        is_eog: bool,
        piece: &[u8],
        return_tokens: bool,
        timings_per_token: bool,
    ) -> (step: TokenStep)
        requires
            old(self).wf(),
            !old(self).is_finished(),
            old(self).generation().stop_type == StopType::NotStopped,
            old(self).generation().n_decoded < i32::MAX,
        ensures
            final(self).wf(),
            !final(self).is_finished(),
            final(self).is_streaming() == old(self).is_streaming(),
            final(self).stop_words() == old(self).stop_words(),
            final(self).prompt_len() == old(self).prompt_len(),
            final(self).pieces() == if is_eog {
                old(self).pieces()
            } else {
                old(self).pieces().push(piece@)
            },
            final(self).chunks() == match step {
                TokenStep::Released { text, .. } => if old(self).is_streaming() {
                    old(self).chunks().push(text@)
                } else {
                    old(self).chunks()
                },
                _ => old(self).chunks(),
            },
            final(self).generation().n_decoded == old(self).generation().n_decoded + 1,
            final(self).generation().n_decoded >= 1,
            final(self).generation().last_token == token,
            final(self).generation().tokens@ == if return_tokens {
                old(self).generation().tokens@.push(token)
            } else {
                old(self).generation().tokens@
            },
            final(self).generation().n_past == old(self).generation().n_past,
            final(self).generation().truncated == old(self).generation().truncated,
            final(self).generation().has_new_line == old(self).generation().has_new_line,
            is_eog <==> step is EndOfGeneration,
            is_eog ==> final(self).generation().stop_type == StopType::Eos,
            step is Held ==> final(self).generation().stop_type == StopType::NotStopped,
            is_eog ==> final(self).generation().stopping_word == old(self).generation().stopping_word,
            !is_eog && !fires_at_step(
                old(self).stop_words(),
                text_run(old(self).stop_words(), old(self).pieces()),
                piece@,
            ) ==> {
                &&& final(self).generation().stop_type == old(self).generation().stop_type
                &&& final(self).generation().stopping_word@ == old(self).generation().stopping_word@
            },
            !is_eog && fires_at_step(
                old(self).stop_words(),
                text_run(old(self).stop_words(), old(self).pieces()),
                piece@,
            ) ==> {
                &&& step is Released
                &&& final(self).generation().stop_type == StopType::Word
                &&& final(self).stop_words().contains(final(self).generation().stopping_word@)
            },
            step matches TokenStep::Released { has_next, .. } ==> (has_next <==> !fires_at_step(
                old(self).stop_words(),
                text_run(old(self).stop_words(), old(self).pieces()),
                piece@,
            )),
            step matches TokenStep::Released { text, has_next, new_line, with_timings } ==> {
                &&& final(self).generation().content@ == old(self).generation().content@ + text@
                &&& has_next == (final(self).generation().stop_type == StopType::NotStopped)
                &&& new_line == encode_utf8(text@).contains(0x0au8)
                &&& with_timings == (timings_per_token || !has_next)
                &&& !has_next ==> final(self).generation().stop_type == StopType::Word
            },
    {
        let ghost t = text_run(self.stops@, self.pieces@);
        let step = self.state.accept_token(
            &mut self.utf8,
            &self.stops,
            token,
            is_eog,
            piece,
            return_tokens,
            timings_per_token,
        );
        proof {
            if !is_eog {
                lemma_text_run_push(self.stops@, self.pieces@, piece@);
                assert(self.pieces@.push(piece@).drop_last() =~= self.pieces@);
                self.pieces@ = self.pieces@.push(piece@);
                let pushed = utf8_push_result(t.pending, piece@);
                if pushed.0.len() == 0 {
                    let held = encode_utf8(t.unsent + released_chars(pushed.1));
                    let out = release_spec(
                        held,
                        scan_spec(held, self.stops@, released_len(pushed.1), true),
                    );
                    assert(decode_utf8(encode_utf8(self.state.unsent@)) == self.state.unsent@);
                    if let TokenStep::Released { text, .. } = &step {
                        assert(decode_utf8(encode_utf8(text@)) == text@);
                    }
                    if let Some(word) = out.2 {
                        assert(self.state.unsent@ =~= Seq::<char>::empty()) by {
                            assert(decode_utf8(Seq::<u8>::empty()) =~= Seq::<char>::empty());
                        }
                        assert(self.stops@.contains(self.stops@[word as int]));
                    }
                }
            }
        }
        if let TokenStep::Released { text, .. } = &step {
            if self.stream {
                proof {
                    lemma_joined_push(self.chunks@, text@);
                    self.chunks@ = self.chunks@.push(text@);
                }
            }
        }
        step
    }

    /// Applies the limits after a token (see
    /// [`GenerationState::check_limits`]); the run's text does not change.
    pub fn check_limits(
        &mut self,
        has_next: bool,
        sent_new_line: bool,
        n_ctx: i32,
        n_predict: i32,
        t_max_predict_ms: i64,
        elapsed_ms: u128,
    ) -> (next: bool)
        requires
            old(self).wf(),
        ensures
            final(self).wf(),
            limits_applied(
                old(self).generation(),
                final(self).generation(),
                next,
                has_next,
                sent_new_line,
                n_ctx,
                n_predict,
                t_max_predict_ms,
                elapsed_ms,
            ),
            final(self).is_finished() == old(self).is_finished(),
            final(self).is_streaming() == old(self).is_streaming(),
            final(self).stop_words() == old(self).stop_words(),
            final(self).prompt_len() == old(self).prompt_len(),
            final(self).pieces() == old(self).pieces(),
            final(self).chunks() == old(self).chunks(),
    {
        self.state.check_limits(
            has_next,
            sent_new_line,
            n_ctx,
            n_predict,
            t_max_predict_ms,
            elapsed_ms,
        )
    }

    /// Ends the run: text still held for a stop word that never completed is
    /// released (see [`flush_held_text`]) and, on a streaming run, handed out
    /// as the last chunk.
    pub fn finish(&mut self) -> (r: Option<String>)
        requires
            old(self).wf(),
            !old(self).is_finished(),
        ensures
            final(self).wf(),
            final(self).is_finished(),
            final(self).is_streaming() == old(self).is_streaming(),
            final(self).stop_words() == old(self).stop_words(),
            final(self).prompt_len() == old(self).prompt_len(),
            final(self).pieces() == old(self).pieces(),
            final(self).generation().content@ == finished_content(
                old(self).stop_words(),
                old(self).pieces(),
            ),
            old(self).generation().unsent@.len() == 0 ==> r is None,
            old(self).generation().unsent@.len() > 0 ==> (r matches Some(held) && held@
                == old(self).generation().unsent@),
            final(self).chunks() == match r {
                Some(held) => if old(self).is_streaming() {
                    old(self).chunks().push(held@)
                } else {
                    old(self).chunks()
                },
                None => old(self).chunks(),
            },
            final(self).generation().stop_type == old(self).generation().stop_type,
            final(self).generation().stopping_word == old(self).generation().stopping_word,
            final(self).generation().tokens == old(self).generation().tokens,
            final(self).generation().n_decoded == old(self).generation().n_decoded,
            final(self).generation().n_past == old(self).generation().n_past,
            final(self).generation().truncated == old(self).generation().truncated,
    {
        let ghost before = self.state.content@;
        let ghost unsent = self.state.unsent@;
        proof {
            if !word_fired(self.stops@, self.pieces@) {
                law_flushed_text_has_no_stop_word(before, unsent, self.stops@);
            }
        }
        let r = flush_held_text(&mut self.state);
        self.finished = true;
        proof {
            if unsent.len() == 0 {
                assert(before + unsent =~= before);
            }
        }
        if let Some(held) = &r {
            if self.stream {
                proof {
                    lemma_joined_push(self.chunks@, held@);
                    self.chunks@ = self.chunks@.push(held@);
                }
            }
        }
        r
    }
}

/// Streaming loses and adds nothing: the chunks a streaming run hands out,
/// one after another, are its content, at every point of the run and so
/// also once it has finished.
pub proof fn law_streamed_chunks_make_the_content(run: CompletionRun)
    requires
        run.wf(),
        run.is_streaming(),
    ensures
        joined(run.chunks()) == run.generation().content@,
{
}

/// Whether a run streams changes nothing of its content: two finished runs
/// with the same stop words that were fed the same pieces have the same
/// content, and a run that does not stream hands out no chunk.
pub proof fn law_content_does_not_depend_on_streaming(a: CompletionRun, b: CompletionRun)
    requires
        a.wf(),
        b.wf(),
        a.is_finished(),
        b.is_finished(),
        a.stop_words() == b.stop_words(),
        a.pieces() == b.pieces(),
    ensures
        a.generation().content@ == b.generation().content@,
        !a.is_streaming() ==> a.chunks().len() == 0,
{
}

/// Stop words only cut the text short: a finished run with stop words,
/// fed the first of the pieces that a finished run without stop words was
/// fed, has as its content a prefix of the other's content.
pub proof fn law_stop_words_keep_a_prefix(free: CompletionRun, stopped: CompletionRun)
    requires
        free.wf(),
        stopped.wf(),
        free.is_finished(),
        stopped.is_finished(),
        free.stop_words().len() == 0,
        stopped.pieces().is_prefix_of(free.pieces()),
    ensures
        stopped.generation().content@.is_prefix_of(free.generation().content@),
{
    let none: Seq<Seq<char>> = Seq::empty();
    let all = free.pieces();
    let some = stopped.pieces();
    assert(free.stop_words() =~= none);
    assert(all.take(some.len() as int) =~= some);
    lemma_stops_keep_a_prefix(stopped.stop_words(), some);
    lemma_stops_keep_a_prefix(none, all);
    lemma_stops_keep_a_prefix(none, some);
    lemma_content_grows(none, all, some.len() as int);
    assert(text_run(none, all).content + text_run(none, all).unsent =~= text_run(none, all).content);
}

/// A run never releases a stop word: no stop word occurs in its content, at
/// any point of the run and once it has finished.
pub proof fn law_content_has_no_stop_word(run: CompletionRun)
    requires
        run.wf(),
    ensures
        free_of_stops(encode_utf8(run.generation().content@), run.stop_words()),
{
}

/// A stop word is not missed: if the text that a finished run's pieces
/// make without stop words holds one of the run's stop words, a stop word
/// fired in the run, which then stopped on that word (or on a limit reached
/// with the same token) and records it as its stopping word.
pub proof fn law_a_stop_word_in_the_text_fires(run: CompletionRun)
    requires
        run.wf(),
        run.is_finished(),
    ensures
        !free_of_stops(encode_utf8(text_run(Seq::empty(), run.pieces()).content), run.stop_words())
            ==> word_fired(run.stop_words(), run.pieces()),
        word_fired(run.stop_words(), run.pieces()) ==> {
            &&& run.generation().stop_type == StopType::Word || run.generation().stop_type
                == StopType::Limit
            &&& run.stop_words().contains(run.generation().stopping_word@)
        },
        run.generation().stop_type == StopType::Word ==> word_fired(run.stop_words(), run.pieces()),
{
    lemma_stops_keep_a_prefix(run.stop_words(), run.pieces());
}

/// A stop word cuts the text short. Take a finished run without stop words
/// whose content holds one of the stop words of a second finished run, fed
/// the first of the same pieces: all of them, or as many as it took until a
/// stop word fired. Then a stop word fired in the second run, which stopped
/// on one of its stop words (or on a limit reached with the same token), and
/// its content is a strictly shorter prefix of the first run's content, with
/// no stop word in it.
pub proof fn law_a_stop_word_truncates_the_text(free: CompletionRun, stopped: CompletionRun)
    requires
        free.wf(),
        stopped.wf(),
        free.is_finished(),
        stopped.is_finished(),
        free.stop_words().len() == 0,
        stopped.pieces().is_prefix_of(free.pieces()),
        stopped.pieces() == free.pieces() || word_fired(stopped.stop_words(), stopped.pieces()),
        !free_of_stops(encode_utf8(free.generation().content@), stopped.stop_words()),
    ensures
        word_fired(stopped.stop_words(), stopped.pieces()),
        stopped.generation().stop_type == StopType::Word || stopped.generation().stop_type
            == StopType::Limit,
        stopped.stop_words().contains(stopped.generation().stopping_word@),
        free_of_stops(encode_utf8(stopped.generation().content@), stopped.stop_words()),
        stopped.generation().content@.is_prefix_of(free.generation().content@),
        stopped.generation().content@.len() < free.generation().content@.len(),
{
    let none: Seq<Seq<char>> = Seq::empty();
    assert(free.stop_words() =~= none);
    lemma_stops_keep_a_prefix(none, free.pieces());
    assert(free.generation().content@ =~= text_run(none, free.pieces()).content);
    law_a_stop_word_in_the_text_fires(stopped);
    law_stop_words_keep_a_prefix(free, stopped);
    if stopped.generation().content@.len() >= free.generation().content@.len() {
        assert(stopped.generation().content@ =~= free.generation().content@);
    }
}

} // verus!
