//! The data and argument handling of the embedding and reranking benchmarks.
use vstd::prelude::*;
use vstd::string::StrSliceExecFns;
use crate::json::str_eq;
use vstd::utf8::{decode_utf8, encode_utf8};
use crate::engine::completion::string_from_utf8;
use crate::engine::runtime::{decimal_digits, lemma_ascii_valid, lemma_decimal_digits_ascii, push_decimal};

verus! {

/// One split of a document, with the files its embeddings were written to.
#[derive(Debug, Clone)]
pub struct SplitData {
    pub split_id: usize,
    pub no_tokens: usize,
    pub split_embedding_name: String,
    pub split_embedding_file: String,
    pub split_string: String,
    pub sentence_embeddings_name: String,
    pub sentence_embeddings_file: String,
    pub sentences: Vec<String>,
}

/// A text and its summary.
#[derive(Debug, Clone)]
pub struct SummaryData {
    pub text: String,
    pub summary: String,
}

/// A query and the summaries to rank against it.
#[derive(Debug, Clone)]
pub struct QuerySummaries {
    pub query: String,
    pub summaries: Vec<String>,
}

/// `<s>{query}</s></s>{document}</s>`.
pub open spec fn reranker_prompt(query: Seq<char>, document: Seq<char>) -> Seq<char> {
    "<s>"@ + query + "</s></s>"@ + document + "</s>"@
}

/// One reranker prompt per document, in the documents' order.
pub fn build_simple_reranker_prompts(query: &str, documents: &[String]) -> (r: Vec<String>)
    ensures
        r@.len() == documents@.len(),
        forall|i: int| 0 <= i < r@.len() ==> #[trigger] r@[i]@ == reranker_prompt(query@, documents@[i]@),
{
    let mut out: Vec<String> = Vec::new();
    let mut i: usize = 0;
    while i < documents.len()
        invariant
            i <= documents@.len(),
            out@.len() == i,
            forall|j: int| 0 <= j < i ==> #[trigger] out@[j]@ == reranker_prompt(query@, documents@[j]@),
        decreases documents@.len() - i,
    {
        let mut prompt = String::from_str("<s>");
        prompt.append(query);
        prompt.append("</s></s>");
        prompt.append(documents[i].as_str());
        prompt.append("</s>");
        out.push(prompt);
        i = i + 1;
    }
    out
}

/// A command-line value where `-` stands for "none".
pub open spec fn is_none_marker(value: Seq<char>) -> bool {
    value == "-"@
}

/// `None` for `-`, else the value itself.
pub fn optional_str_value(value: &str) -> (r: Option<&str>)
    ensures
        is_none_marker(value@) ==> r is None,
        !is_none_marker(value@) ==> r == Some(value),
{
    if str_eq(value, "-") {
        None
    } else {
        Some(value)
    }
}

/// `None` for `-`, else an owned copy of the value.
pub fn optional_owned_value(value: &str) -> (r: Option<String>)
    ensures
        is_none_marker(value@) ==> r is None,
        !is_none_marker(value@) ==> (r matches Some(s) && s@ == value@),
{
    if str_eq(value, "-") {
        None
    } else {
        Some(String::from_str(value))
    }
}

/// Why a decimal `u32` could not be read.
#[derive(Debug, Clone, Copy, PartialEq, Eq, Structural)]
pub enum IntErrorKind {
    /// The text is empty.
    Empty,
    /// A character is not a decimal digit (or no digit follows the sign).
    InvalidDigit,
    /// The number does not fit in a `u32`.
    PosOverflow,
}

/// Whether `c` is an ASCII decimal digit.
pub open spec fn is_digit(c: char) -> bool {
    '0' <= c <= '9'
}

/// Reads the digits `d` left to right onto `acc`; the first non-digit, or
/// the first digit that takes the value past `u32::MAX`, stops the read.
pub open spec fn scan_u32(d: Seq<char>, acc: nat) -> Result<nat, IntErrorKind>
    decreases d.len(),
{
    if d.len() == 0 {
        Ok(acc)
    } else if !is_digit(d[0]) {
        Err(IntErrorKind::InvalidDigit)
    } else {
        let n = acc * 10 + (d[0] as nat - '0' as nat);
        if n > u32::MAX {
            Err(IntErrorKind::PosOverflow)
        } else {
            scan_u32(d.drop_first(), n as nat)
        }
    }
}

/// `text` read as a decimal `u32`, as `str::parse::<u32>` reads it: an
/// optional leading `+`, then at least one digit and nothing else.
pub open spec fn parse_u32_spec(text: Seq<char>) -> Result<u32, IntErrorKind> {
    if text.len() == 0 {
        Err(IntErrorKind::Empty)
    } else {
        let digits = if text[0] == '+' {
            text.drop_first()
        } else {
            text
        };
        if digits.len() == 0 {
            Err(IntErrorKind::InvalidDigit)
        } else {
            match scan_u32(digits, 0) {
                Ok(v) => Ok(v as u32),
                Err(e) => Err(e),
            }
        }
    }
}

/// Reads a decimal `u32` the way `str::parse::<u32>` does.
pub fn parse_u32(text: &str) -> (r: Result<u32, IntErrorKind>)
    ensures
        r == parse_u32_spec(text@),
{
    let n = text.unicode_len();
    if n == 0 {
        return Err(IntErrorKind::Empty);
    }
    let mut i: usize = 0;
    if text.get_char(0) == '+' {
        i = 1;
    }
    if i == n {
        return Err(IntErrorKind::InvalidDigit);
    }
    let ghost start = i;
    let ghost digits = text@.subrange(i as int, n as int);
    assert(digits =~= (if text@[0] == '+' {
        text@.drop_first()
    } else {
        text@
    }));
    let mut acc: u32 = 0;
    while i < n
        invariant
            n == text@.len(),
            1 <= n,
            i <= n,
            start <= i,
            parse_u32_spec(text@) == (match scan_u32(digits, 0) {
                Ok(v) => Ok(v as u32),
                Err(e) => Err::<u32, IntErrorKind>(e),
            }),
            scan_u32(digits, 0) == scan_u32(text@.subrange(i as int, n as int), acc as nat),
        decreases n - i,
    {
        let c = text.get_char(i);
        let ghost rest = text@.subrange(i as int, n as int);
        assert(rest[0] == c);
        assert(rest.drop_first() =~= text@.subrange(i + 1, n as int));
        if !('0' <= c && c <= '9') {
            return Err(IntErrorKind::InvalidDigit);
        }
        let d: u32 = (c as u32) - ('0' as u32);
        if acc > 429496729 || (acc == 429496729 && d > 5) {
            return Err(IntErrorKind::PosOverflow);
        }
        acc = acc * 10 + d;
        i = i + 1;
    }
    assert(text@.subrange(n as int, n as int).len() == 0);
    Ok(acc)
}

/// `None` for `-`, else the value read as a decimal `u32`.
pub fn parse_optional_u32(value: &str) -> (r: Result<Option<u32>, IntErrorKind>)
    ensures
        is_none_marker(value@) ==> r == Ok::<Option<u32>, IntErrorKind>(None),
        !is_none_marker(value@) ==> r == (match parse_u32_spec(value@) {
            Ok(v) => Ok(Some(v)),
            Err(e) => Err(e),
        }),
{
    if str_eq(value, "-") {
        Ok(None)
    } else {
        match parse_u32(value) {
            Ok(v) => Ok(Some(v)),
            Err(e) => Err(e),
        }
    }
}

/// A character with the Unicode `White_Space` property, as
/// `char::is_whitespace` tells it.
pub open spec fn is_white_space(c: char) -> bool {
    let u = c as u32;
    ||| 0x09 <= u <= 0x0d
    ||| u == 0x20
    ||| u == 0x85
    ||| u == 0xa0
    ||| u == 0x1680
    ||| 0x2000 <= u <= 0x200a
    ||| u == 0x2028
    ||| u == 0x2029
    ||| u == 0x202f
    ||| u == 0x205f
    ||| u == 0x3000
}

/// `text` without its leading whitespace.
pub open spec fn trim_start_spec(text: Seq<char>) -> Seq<char>
    decreases text.len(),
{
    if text.len() > 0 && is_white_space(text[0]) {
        trim_start_spec(text.drop_first())
    } else {
        text
    }
}

/// `text` without its trailing whitespace.
pub open spec fn trim_end_spec(text: Seq<char>) -> Seq<char>
    decreases text.len(),
{
    if text.len() > 0 && is_white_space(text.last()) {
        trim_end_spec(text.drop_last())
    } else {
        text
    }
}

/// What `str::trim` leaves of a text: the text without its leading and
/// trailing whitespace.
pub open spec fn trimmed(text: Seq<char>) -> Seq<char> {
    trim_end_spec(trim_start_spec(text))
}

/// Whether `c` has the Unicode `White_Space` property.
fn white_space(c: char) -> (r: bool)
    ensures
        r == is_white_space(c),
{
    let u = c as u32;
    (0x09 <= u && u <= 0x0d) || u == 0x20 || u == 0x85 || u == 0xa0 || u == 0x1680 || (0x2000 <= u
        && u <= 0x200a) || u == 0x2028 || u == 0x2029 || u == 0x202f || u == 0x205f || u == 0x3000
}

/// `text` without its leading and trailing whitespace, as `str::trim` gives it.
pub fn trim_whitespace(text: &str) -> (r: &str)
    ensures
        r@ == trimmed(text@),
{
    let n = text.unicode_len();
    let mut start: usize = 0;
    assert(text@.subrange(0, n as int) =~= text@);
    while start < n && white_space(text.get_char(start))
        invariant
            n == text@.len(),
            start <= n,
            trim_start_spec(text@) == trim_start_spec(text@.subrange(start as int, n as int)),
        decreases n - start,
    {
        assert(text@.subrange(start as int, n as int).drop_first() =~= text@.subrange(
            start + 1,
            n as int,
        ));
        start = start + 1;
    }
    let mut end: usize = n;
    while end > start && white_space(text.get_char(end - 1))
        invariant
            n == text@.len(),
            start <= end <= n,
            trim_start_spec(text@) == text@.subrange(start as int, n as int),
            trimmed(text@) == trim_end_spec(text@.subrange(start as int, end as int)),
        decreases end - start,
    {
        assert(text@.subrange(start as int, end as int).drop_last() =~= text@.subrange(
            start as int,
            end - 1,
        ));
        end = end - 1;
    }
    text.substring_char(start, end)
}

/// A model file of a Hugging Face repository, its names trimmed.
#[derive(Debug, Clone, PartialEq, Eq)]
pub struct HfModelRef {
    pub repo_id: String,
    pub filename: String,
    pub revision: Option<String>,
}

/// Checks the names of a model file to fetch: the repository id and the
/// file name must not be blank; a blank revision means none.
pub fn hf_model_ref(repo_id: &str, filename: &str, revision: Option<&str>) -> (r: Result<
    HfModelRef,
    String,
>)
    ensures
        trimmed(repo_id@).len() == 0 ==> (r matches Err(m) && m@
            == "Hugging Face repo id cannot be empty"@),
        trimmed(repo_id@).len() > 0 && trimmed(filename@).len() == 0 ==> (r matches Err(m) && m@
            == "Hugging Face filename cannot be empty"@),
        trimmed(repo_id@).len() > 0 && trimmed(filename@).len() > 0 ==> (r matches Ok(m) && {
            &&& m.repo_id@ == trimmed(repo_id@)
            &&& m.filename@ == trimmed(filename@)
            &&& match revision {
                Some(rev) => if trimmed(rev@).len() > 0 {
                    m.revision matches Some(v) && v@ == trimmed(rev@)
                } else {
                    m.revision is None
                },
                None => m.revision is None,
            }
        }),
{
    let repo = trim_whitespace(repo_id);
    if repo.unicode_len() == 0 {
        return Err(String::from_str("Hugging Face repo id cannot be empty"));
    }
    let file = trim_whitespace(filename);
    if file.unicode_len() == 0 {
        return Err(String::from_str("Hugging Face filename cannot be empty"));
    }
    let rev = match revision {
        Some(r) => {
            let t = trim_whitespace(r);
            if t.unicode_len() == 0 {
                None
            } else {
                Some(String::from_str(t))
            }
        },
        None => None,
    };
    Ok(HfModelRef { repo_id: String::from_str(repo), filename: String::from_str(file), revision: rev })
}

/// How sequences of the lengths `lens[i..]` are grouped into batches of
/// `cap` tokens, the open batch starting at sequence `start` and holding
/// `used` tokens: a sequence that does not fit closes the open batch and
/// starts the next one; the last batch is closed at the end. Each batch is
/// a range of sequence indices.
pub open spec fn batch_groups(lens: Seq<usize>, cap: int, i: int, start: int, used: int) -> Seq<
    (int, int),
>
    decreases lens.len() - i,
{
    if i >= lens.len() {
        seq![(start, i)]
    } else if used + lens[i] > cap {
        seq![(start, i)] + batch_groups(lens, cap, i + 1, i, lens[i] as int)
    } else {
        batch_groups(lens, cap, i + 1, start, used + lens[i])
    }
}

/// The index ranges as integers.
pub open spec fn ranges_view(r: Seq<(usize, usize)>) -> Seq<(int, int)> {
    r.map_values(|g: (usize, usize)| (g.0 as int, g.1 as int))
}

/// The batches in which sequences of the given token counts are decoded,
/// at most `capacity` tokens each: sequences are added in order, and one
/// that does not fit first sends the batch so far.
pub fn sequence_batches(lens: &Vec<usize>, capacity: usize) -> (r: Vec<(usize, usize)>)
    ensures
        ranges_view(r@) == batch_groups(lens@, capacity as int, 0, 0, 0),
{
    let mut out: Vec<(usize, usize)> = Vec::new();
    let mut start: usize = 0;
    let mut used: usize = 0;
    let mut i: usize = 0;
    while i < lens.len()
        invariant
            i <= lens@.len(),
            start <= i,
            ranges_view(out@) + batch_groups(lens@, capacity as int, i as int, start as int, used as int)
                == batch_groups(lens@, capacity as int, 0, 0, 0),
        decreases lens@.len() - i,
    {
        let n = lens[i];
        let ghost before = ranges_view(out@);
        if used > capacity || n > capacity - used {
            out.push((start, i));
            assert(ranges_view(out@) =~= before.push((start as int, i as int)));
            assert(before + batch_groups(lens@, capacity as int, i as int, start as int, used as int)
                =~= ranges_view(out@) + batch_groups(lens@, capacity as int, i + 1, i as int, n as int));
            start = i;
            used = n;
        } else {
            used = used + n;
        }
        i = i + 1;
    }
    let ghost before = ranges_view(out@);
    out.push((start, i));
    assert(ranges_view(out@) =~= before + batch_groups(lens@, capacity as int, i as int, start as int, used as int));
    out
}

/// The tokens of a reranker input: the model's begin-of-sequence token, the
/// tokenizer's ids (read as `i32`), and its end-of-sequence token.
pub fn with_bos_eos(ids: &[u32], bos: i32, eos: i32) -> (r: Vec<i32>)
    ensures
        r@ == seq![bos] + ids@.map_values(|id: u32| id as i32) + seq![eos],
{
    let mut out: Vec<i32> = Vec::new();
    out.push(bos);
    let mut k: usize = 0;
    while k < ids.len()
        invariant
            k <= ids@.len(),
            out@ == seq![bos] + ids@.subrange(0, k as int).map_values(|id: u32| id as i32),
        decreases ids@.len() - k,
    {
        out.push(ids[k] as i32);
        assert(ids@.subrange(0, k + 1).map_values(|id: u32| id as i32) =~= ids@.subrange(0, k as int).map_values(
            |id: u32| id as i32,
        ).push(ids@[k as int] as i32));
        k = k + 1;
    }
    assert(ids@.subrange(0, ids@.len() as int) =~= ids@);
    out.push(eos);
    out
}

/// `digits` with ASCII zeros in front, to at least `width` bytes.
pub open spec fn zero_padded(digits: Seq<u8>, width: nat) -> Seq<u8> {
    if digits.len() >= width {
        digits
    } else {
        Seq::new((width - digits.len()) as nat, |i: int| 0x30u8) + digits
    }
}

/// A split's id in the names of its artifacts: its decimal digits, with
/// zeros in front to three digits.
pub open spec fn split_id_chars(split_id: nat) -> Seq<char> {
    decode_utf8(zero_padded(decimal_digits(split_id), 3))
}

/// The id of split `split_id` as it appears in its artifacts' names.
pub fn split_id_text(split_id: usize) -> (s: String)
    ensures
        s@ == split_id_chars(split_id as nat),
{
    let mut digits: Vec<u8> = Vec::new();
    push_decimal(&mut digits, split_id as u64);
    proof {
        lemma_decimal_digits_ascii(split_id as nat);
    }
    let ghost d = digits@;
    let mut out: Vec<u8> = Vec::new();
    while digits.len() < 3 - out.len()
        invariant
            digits@ == d,
            out@.len() <= 3,
            out@.len() == 0 || out@.len() + d.len() <= 3,
            out@ =~= Seq::new(out@.len(), |i: int| 0x30u8),
        decreases 3 - out@.len(),
    {
        out.push(0x30);
    }
    let ghost pad = out@;
    out.append(&mut digits);
    assert(out@ =~= zero_padded(d, 3));
    proof {
        assert forall|i: int| 0 <= i < out@.len() implies #[trigger] out@[i] < 0x80 by {
            if i >= pad.len() {
                assert(out@[i] == d[i - pad.len()]);
            }
        }
        lemma_ascii_valid(out@);
    }
    match string_from_utf8(out) {
        Some(s) => {
            proof {
                vstd::utf8::encode_utf8_decode_utf8(s@);
            }
            s
        },
        None => {
            proof {
                assert(false);
            }
            String::new()
        },
    }
}

/// The name under which the embedding of split `split_id` is saved.
pub open spec fn split_embedding_name(split_id: nat) -> Seq<char> {
    "split_embedding_"@ + split_id_chars(split_id)
}

/// The name under which the embeddings of split `split_id`'s sentences are saved.
pub open spec fn sentence_embeddings_name(split_id: nat) -> Seq<char> {
    "sentence_embeddings_"@ + split_id_chars(split_id)
}

/// The file an artifact named `name` is saved in.
pub open spec fn safetensors_file(name: Seq<char>) -> Seq<char> {
    name + ".safetensors"@
}

/// The path of `file` in the directory `out_dir`.
pub open spec fn artifact_path(out_dir: Seq<char>, file: Seq<char>) -> Seq<char> {
    out_dir + "/"@ + file
}

/// The record of split `split_id`, and the paths under `out_dir` of the file
/// with the split's embedding and of the file with its sentences'
/// embeddings.
pub fn split_record(
    out_dir: &str,
    split_id: usize,
    no_tokens: usize,
    split_string: String,
    sentences: Vec<String>,
) -> (r: (SplitData, String, String))
    ensures
        r.0.split_id == split_id,
        r.0.no_tokens == no_tokens,
        r.0.split_embedding_name@ == split_embedding_name(split_id as nat),
        r.0.split_embedding_file@ == safetensors_file(split_embedding_name(split_id as nat)),
        r.0.split_string@ == split_string@,
        r.0.sentence_embeddings_name@ == sentence_embeddings_name(split_id as nat),
        r.0.sentence_embeddings_file@ == safetensors_file(sentence_embeddings_name(split_id as nat)),
        r.0.sentences@ == sentences@,
        r.1@ == artifact_path(out_dir@, safetensors_file(split_embedding_name(split_id as nat))),
        r.2@ == artifact_path(out_dir@, safetensors_file(sentence_embeddings_name(split_id as nat))),
{
    let id = split_id_text(split_id);
    let mut split_name = String::from_str("split_embedding_");
    split_name.append(id.as_str());
    let mut split_file = String::from_str("split_embedding_");
    split_file.append(id.as_str());
    split_file.append(".safetensors");
    let mut split_path = String::from_str(out_dir);
    split_path.append("/");
    split_path.append(split_file.as_str());
    let mut sentence_name = String::from_str("sentence_embeddings_");
    sentence_name.append(id.as_str());
    let mut sentence_file = String::from_str("sentence_embeddings_");
    sentence_file.append(id.as_str());
    sentence_file.append(".safetensors");
    let mut sentence_path = String::from_str(out_dir);
    sentence_path.append("/");
    sentence_path.append(sentence_file.as_str());
    assert(split_path@ =~= artifact_path(out_dir@, safetensors_file(split_embedding_name(split_id as nat))));
    assert(sentence_path@ =~= artifact_path(
        out_dir@,
        safetensors_file(sentence_embeddings_name(split_id as nat)),
    ));
    let data = SplitData {
        split_id,
        no_tokens,
        split_embedding_name: split_name,
        split_embedding_file: split_file,
        split_string,
        sentence_embeddings_name: sentence_name,
        sentence_embeddings_file: sentence_file,
        sentences,
    };
    (data, split_path, sentence_path)
}

/// The text whose embedding is taken for a split: the model's instruction,
/// where it has one, and then the split's text.
pub fn embedding_input(instruct: Option<&str>, split_string: &str) -> (r: String)
    ensures
        r@ == match instruct {
            Some(i) => i@ + split_string@,
            None => split_string@,
        },
{
    match instruct {
        Some(i) => {
            let mut input = String::from_str(i);
            input.append(split_string);
            input
        },
        None => String::from_str(split_string),
    }
}

/// The sentences of a split that have tokens, in order: `splits` holds each
/// sentence's text and its number of tokens.
pub open spec fn kept_sentences(splits: Seq<(String, usize)>) -> Seq<Seq<char>>
    decreases splits.len(),
{
    if splits.len() == 0 {
        Seq::empty()
    } else if splits.last().1 > 0 {
        kept_sentences(splits.drop_last()).push(splits.last().0@)
    } else {
        kept_sentences(splits.drop_last())
    }
}

/// Drops the sentences without tokens, keeping the others in order.
pub fn nonempty_sentences(splits: &Vec<(String, usize)>) -> (r: Vec<String>)
    ensures
        r@.map_values(|s: String| s@) == kept_sentences(splits@),
{
    let mut out: Vec<String> = Vec::new();
    let mut i: usize = 0;
    while i < splits.len()
        invariant
            i <= splits@.len(),
            out@.map_values(|s: String| s@) == kept_sentences(splits@.take(i as int)),
        decreases splits@.len() - i,
    {
        assert(splits@.take(i + 1).drop_last() =~= splits@.take(i as int));
        if splits[i].1 > 0 {
            let text = splits[i].0.clone();
            out.push(text);
            assert(out@.map_values(|s: String| s@) =~= kept_sentences(splits@.take(i as int)).push(
                splits@[i as int].0@,
            ));
        }
        i = i + 1;
    }
    assert(splits@.take(splits@.len() as int) =~= splits@);
    out
}

} // verus!
