//! Distillation from a llama.cpp teacher: which texts the teacher is shown, how
//! its answer is read, and what the student is trained to give.
//!
//! An embedding is held by the bits of its numbers, those of a sample in single
//! precision and those of the teacher's answer in double precision.

use vstd::prelude::*;

use serde_json::Value;
use tokenizers::Tokenizer;

use crate::data::{text_views, TextPair};
use crate::dataset::{encode_rows, TokenBatch};
use crate::json::{field, items, number_bits, parse_values};
use crate::model::EMBED_DIM;
use crate::text::take_chars;
use crate::tokenize::TokenizerError;

verus! {

/// The teacher that is used where none is named: EmbeddingGemma 300M in four bits.
pub const DEFAULT_TEACHER_MODEL: &'static str = "/Users/AD9C65/.cache/huggingface/hub/models--ggml-org--embeddinggemma-300M-qat-q4_0-GGUF/snapshots/8dd0ca2a66a8f14470acb0e2a71f801afbc5fb73/embeddinggemma-300M-qat-Q4_0.gguf";

/// The most characters of a text that the teacher is shown.
pub const MAX_TEACHER_CHARS: usize = 512;

/// What stands between two texts that the teacher is shown together.
pub const SEPARATOR: &'static str = "<#sep#>";

/// The path of the teacher that is used where none is named.
pub fn default_teacher_model() -> (r: String)
    ensures
        r@ == DEFAULT_TEACHER_MODEL@,
{
    DEFAULT_TEACHER_MODEL.to_owned()
}

/// How teacher embeddings are generated.
#[derive(Debug, Clone)]
pub struct TeacherConfig {
    pub db_path: String,
    pub output_path: String,
    pub model_path: String,
    pub batch_size: usize,
    pub limit: Option<usize>,
}

/// A text and the embedding that the teacher gave it.
#[derive(Debug, Clone)]
pub struct TeacherSample {
    pub text: String,
    pub embedding: Vec<u32>,
}

/// Whether a text comes before another in a dictionary of characters, or is the
/// same.
pub open spec fn text_le(a: Seq<char>, b: Seq<char>) -> bool
    decreases a.len(),
{
    if a.len() == 0 {
        true
    } else if b.len() == 0 {
        false
    } else if a[0] != b[0] {
        a[0] < b[0]
    } else {
        text_le(a.skip(1), b.skip(1))
    }
}

/// Whether texts stand in the order of a dictionary.
pub open spec fn is_sorted(texts: Seq<Seq<char>>) -> bool {
    forall|i: int, j: int|
        0 <= i <= j < texts.len() ==> text_le(#[trigger] texts[i], #[trigger] texts[j])
}

/// Whether a text is the anchor or the positive of one of some pairs.
pub open spec fn is_text_of(pairs: Seq<TextPair>, text: Seq<char>) -> bool {
    exists|i: int|
        0 <= i < pairs.len() && ((#[trigger] pairs[i]).anchor@ == text || pairs[i].positive@
            == text)
}

/// The texts of pairs, in order, with all their repetitions.
pub open spec fn pair_texts(pairs: Seq<TextPair>) -> Seq<Seq<char>>
    decreases pairs.len(),
{
    if pairs.len() == 0 {
        Seq::empty()
    } else {
        pair_texts(pairs.drop_last()).push(pairs.last().anchor@).push(pairs.last().positive@)
    }
}

/// `slice::sort` puts strings into the order of their characters' code points and
/// neither drops one nor makes one up.
#[verifier::external_body]
fn sort_texts(texts: &mut Vec<String>)
    ensures
        is_sorted(text_views(final(texts)@)),
        text_views(final(texts)@).to_multiset() == text_views(old(texts)@).to_multiset(),
{
    texts.sort();
}

/// The dictionary goes by the first character in which two texts differ, by its code
/// point; a text comes before all that begin with it.
pub proof fn law_dictionary_goes_by_the_first_difference(a: Seq<char>, b: Seq<char>, i: int)
    requires
        0 <= i <= a.len(),
        i <= b.len(),
        a.take(i) == b.take(i),
    ensures
        i == a.len() ==> text_le(a, b),
        i == b.len() && i < a.len() ==> !text_le(a, b),
        i < a.len() && i < b.len() && a[i] != b[i] ==> text_le(a, b) == (a[i] < b[i]),
    decreases i,
{
    if i > 0 {
        assert(a.take(i)[0] == a[0]);
        assert(b.take(i)[0] == b[0]);
        let x = a.skip(1);
        let y = b.skip(1);
        assert forall|j: int| 0 <= j < i - 1 implies x.take(i - 1)[j] == #[trigger] y.take(
            i - 1,
        )[j] by {
            assert(a.take(i)[j + 1] == a[j + 1]);
            assert(b.take(i)[j + 1] == b[j + 1]);
        }
        assert(x.take(i - 1) =~= y.take(i - 1));
        law_dictionary_goes_by_the_first_difference(x, y, i - 1);
    }
}

/// Sorted texts stand in the order of the dictionary, each two of them; and where each
/// two that stand side by side or apart do, the texts are sorted.
pub proof fn law_sorted_texts_follow_the_dictionary(texts: Seq<Seq<char>>)
    ensures
        is_sorted(texts) <==> forall|i: int, j: int|
            0 <= i <= j < texts.len() ==> text_le(#[trigger] texts[i], #[trigger] texts[j]),
{
}

/// The teacher is asked about both texts of every pair, and about nothing else.
pub proof fn law_both_texts_of_every_pair_are_asked_about(
    pairs: Seq<TextPair>,
    text: Seq<char>,
    i: int,
)
    ensures
        0 <= i < pairs.len() ==> is_text_of(pairs, pairs[i].anchor@),
        0 <= i < pairs.len() ==> is_text_of(pairs, pairs[i].positive@),
        (forall|j: int|
            0 <= j < pairs.len() ==> (#[trigger] pairs[j]).anchor@ != text && pairs[j].positive@
                != text) ==> !is_text_of(pairs, text),
{
}

proof fn lemma_text_le_antisymmetric(a: Seq<char>, b: Seq<char>)
    requires
        text_le(a, b),
        text_le(b, a),
    ensures
        a == b,
    decreases a.len(),
{
    if a.len() > 0 && b.len() > 0 {
        lemma_text_le_antisymmetric(a.skip(1), b.skip(1));
        assert(a =~= seq![a[0]] + a.skip(1));
        assert(b =~= seq![b[0]] + b.skip(1));
    } else {
        assert(a =~= b);
    }
}

proof fn lemma_pair_texts(pairs: Seq<TextPair>, text: Seq<char>)
    ensures
        pair_texts(pairs).contains(text) <==> is_text_of(pairs, text),
    decreases pairs.len(),
{
    if pairs.len() > 0 {
        let rest = pairs.drop_last();
        let head = pair_texts(rest);
        let all = pair_texts(pairs);
        lemma_pair_texts(rest, text);
        assert(all[head.len() as int] == pairs.last().anchor@);
        assert(all[head.len() as int + 1] == pairs.last().positive@);
        if head.contains(text) {
            let k = choose|k: int| 0 <= k < head.len() && head[k] == text;
            assert(all[k] == text);
        }
        if all.contains(text) {
            let k = choose|k: int| 0 <= k < all.len() && all[k] == text;
            if k < head.len() {
                assert(head[k] == text);
                let i = choose|i: int|
                    0 <= i < rest.len() && ((#[trigger] rest[i]).anchor@ == text
                        || rest[i].positive@ == text);
                assert(pairs[i] == rest[i]);
            } else {
                assert(pairs[pairs.len() - 1] == pairs.last());
            }
        }
        if is_text_of(pairs, text) {
            let i = choose|i: int|
                0 <= i < pairs.len() && ((#[trigger] pairs[i]).anchor@ == text
                    || pairs[i].positive@ == text);
            if i < rest.len() {
                assert(rest[i] == pairs[i]);
            }
        }
    }
}

/// The texts of pairs, with all their repetitions.
fn texts_of_pairs(pairs: &Vec<TextPair>) -> (r: Vec<String>)
    ensures
        text_views(r@) == pair_texts(pairs@),
{
    let mut texts: Vec<String> = Vec::new();
    let mut i: usize = 0;
    assert(text_views(texts@) =~= pair_texts(pairs@.take(0)));
    while i < pairs.len()
        invariant
            i <= pairs@.len(),
            text_views(texts@) == pair_texts(pairs@.take(i as int)),
        decreases pairs@.len() - i,
    {
        texts.push(pairs[i].anchor.clone());
        texts.push(pairs[i].positive.clone());
        proof {
            let next = pairs@.take(i + 1);
            assert(next.drop_last() =~= pairs@.take(i as int));
            assert(text_views(texts@) =~= pair_texts(next));
        }
        i += 1;
    }
    assert(pairs@.take(i as int) =~= pairs@);
    texts
}

/// The texts of a sorted list without repetitions.
fn without_repetitions(texts: &Vec<String>) -> (r: Vec<String>)
    requires
        is_sorted(text_views(texts@)),
    ensures
        is_sorted(text_views(r@)),
        text_views(r@).no_duplicates(),
        forall|text: Seq<char>|
            text_views(r@).contains(text) <==> text_views(texts@).contains(text),
{
    let ghost all = text_views(texts@);
    let mut out: Vec<String> = Vec::new();
    let mut i: usize = 0;
    while i < texts.len()
        invariant
            all == text_views(texts@),
            is_sorted(all),
            i <= all.len(),
            is_sorted(text_views(out@)),
            text_views(out@).no_duplicates(),
            i > 0 ==> out@.len() > 0 && text_views(out@).last() == all[i - 1],
            i == 0 ==> out@.len() == 0,
            forall|text: Seq<char>| #[trigger]
                text_views(out@).contains(text) <==> all.take(i as int).contains(text),
        decreases all.len() - i,
    {
        let ghost kept = text_views(out@);
        let ghost text = all[i as int];
        let ghost seen = all.take(i as int);
        let ghost next = all.take(i + 1);
        let repeated = if i == 0 {
            false
        } else {
            texts[i] == texts[i - 1]
        };
        assert(next =~= seen.push(text));
        assert(next[i as int] == text);
        assert forall|t: Seq<char>| next.contains(t) <==> seen.contains(t) || t == text by {
            if seen.contains(t) {
                let k = choose|k: int| 0 <= k < seen.len() && seen[k] == t;
                assert(next[k] == t);
            }
            if next.contains(t) {
                let k = choose|k: int| 0 <= k < next.len() && next[k] == t;
                if k < i {
                    assert(seen[k] == t);
                }
            }
        }
        if repeated {
            assert(texts@[i as int]@ == texts@[i - 1]@);
            assert(seen[i - 1] == text);
        } else {
            out.push(texts[i].clone());
            proof {
                let grown = text_views(out@);
                assert(grown =~= kept.push(text));
                assert forall|a: int| 0 <= a < kept.len() implies #[trigger] text_le(
                    kept[a],
                    text,
                ) && kept[a] != text by {
                    assert(kept.contains(kept[a]));
                    let k = choose|k: int| 0 <= k < seen.len() && seen[k] == kept[a];
                    assert(all[k] == kept[a]);
                    assert(text_le(all[k], all[i as int]));
                    if kept[a] == text {
                        assert(text_le(all[k], all[i - 1]));
                        assert(text_le(all[i - 1], all[i as int]));
                        lemma_text_le_antisymmetric(all[i - 1], text);
                        assert(texts@[i - 1]@ == texts@[i as int]@);
                    }
                }
                lemma_text_le_reflexive(text);
                assert forall|a: int, b: int| 0 <= a <= b < grown.len() implies text_le(
                    #[trigger] grown[a],
                    #[trigger] grown[b],
                ) by {
                    if b < kept.len() {
                        assert(text_le(kept[a], kept[b]));
                    } else if a < kept.len() {
                        assert(text_le(kept[a], text));
                    }
                }
                assert forall|t: Seq<char>| #[trigger] grown.contains(t) <==> next.contains(t) by {
                    if kept.contains(t) {
                        let k = choose|k: int| 0 <= k < kept.len() && kept[k] == t;
                        assert(grown[k] == t);
                    }
                    assert(grown[kept.len() as int] == text);
                    if grown.contains(t) {
                        let k = choose|k: int| 0 <= k < grown.len() && grown[k] == t;
                        if k < kept.len() {
                            assert(kept[k] == t);
                        }
                    }
                }
            }
        }
        i += 1;
    }
    assert(all.take(i as int) =~= all);
    out
}

proof fn lemma_text_le_reflexive(a: Seq<char>)
    ensures
        text_le(a, a),
    decreases a.len(),
{
    if a.len() > 0 {
        lemma_text_le_reflexive(a.skip(1));
    }
}

/// The texts that a teacher is asked about: the anchors and positives of the
/// pairs, each once, in the order of a dictionary.
pub fn unique_texts(pairs: &Vec<TextPair>) -> (r: Vec<String>)
    ensures
        is_sorted(text_views(r@)),
        text_views(r@).no_duplicates(),
        forall|text: Seq<char>| #[trigger]
            text_views(r@).contains(text) <==> is_text_of(pairs@, text),
        forall|i: int|
            0 <= i < pairs@.len() ==> text_views(r@).contains((#[trigger] pairs@[i]).anchor@)
                && text_views(r@).contains(pairs@[i].positive@),
{
    let mut texts = texts_of_pairs(pairs);
    let ghost unsorted = text_views(texts@);
    sort_texts(&mut texts);
    let r = without_repetitions(&texts);
    proof {
        let sorted = text_views(texts@);
        sorted.to_multiset_ensures();
        unsorted.to_multiset_ensures();
        assert forall|text: Seq<char>| #[trigger] text_views(r@).contains(text) <==> is_text_of(
            pairs@,
            text,
        ) by {
            lemma_pair_texts(pairs@, text);
            assert(sorted.contains(text) <==> sorted.to_multiset().count(text) > 0);
            assert(unsorted.contains(text) <==> unsorted.to_multiset().count(text) > 0);
        }
    }
    r
}

/// The part of a text that the teacher is shown.
pub open spec fn shown(text: Seq<char>) -> Seq<char> {
    if text.len() <= MAX_TEACHER_CHARS {
        text
    } else {
        text.take(MAX_TEACHER_CHARS as int)
    }
}

/// What the teacher is shown of some texts: their first characters, with a
/// separator between each two.
pub open spec fn prompt_of(texts: Seq<Seq<char>>) -> Seq<char>
    decreases texts.len(),
{
    if texts.len() == 0 {
        Seq::empty()
    } else if texts.len() == 1 {
        shown(texts[0])
    } else {
        prompt_of(texts.drop_last()) + SEPARATOR@ + shown(texts.last())
    }
}

/// What the teacher is shown of some texts is what it is shown of the first of them, the
/// separator, and what it is shown of the others. Of a single text it is shown the whole,
/// with its line breaks, or the first 512 characters where it has more.
pub proof fn law_prompt_shows_each_text(texts: Seq<Seq<char>>, more: Seq<Seq<char>>)
    ensures
        texts.len() > 0 && more.len() > 0 ==> prompt_of(texts + more) == prompt_of(texts)
            + SEPARATOR@ + prompt_of(more),
        texts.len() == 1 && texts[0].len() <= 512 ==> prompt_of(texts) == texts[0],
        texts.len() == 1 && texts[0].len() > 512 ==> prompt_of(texts) == texts[0].subrange(0, 512),
        texts.len() == 0 ==> prompt_of(texts).len() == 0,
    decreases more.len(),
{
    if texts.len() > 0 && more.len() > 0 {
        let all = texts + more;
        let fewer = more.drop_last();
        assert(all.drop_last() =~= texts + fewer);
        assert(all.last() == more.last());
        if more.len() == 1 {
            assert(texts + fewer =~= texts);
        } else {
            law_prompt_shows_each_text(texts, fewer);
            assert(prompt_of(all) =~= prompt_of(texts) + SEPARATOR@ + prompt_of(more));
        }
    }
}

/// Texts with the separator between each two of them.
pub open spec fn separated(texts: Seq<Seq<char>>) -> Seq<Seq<char>> {
    Seq::new(
        (2 * texts.len() - 1) as nat,
        |i: int|
            if i % 2 == 0 {
                texts[i / 2]
            } else {
                "<#sep#>"@
            },
    )
}

/// Texts that are no longer than the teacher can be shown are shown whole: the prompt is
/// the texts themselves, one behind the other, with the separator between each two.
pub proof fn law_short_texts_are_shown_whole(texts: Seq<Seq<char>>)
    requires
        texts.len() > 0,
        forall|i: int| 0 <= i < texts.len() ==> (#[trigger] texts[i]).len() <= 512,
    ensures
        prompt_of(texts) == separated(texts).flatten(),
    decreases texts.len(),
{
    if texts.len() == 1 {
        assert(separated(texts) =~= seq![texts[0]]);
        separated(texts).lemma_flatten_singleton();
        assert(texts[0].len() <= 512);
    } else {
        let fewer = texts.drop_last();
        let head = separated(fewer);
        assert forall|i: int| 0 <= i < fewer.len() implies (#[trigger] fewer[i]).len() <= 512 by {
            assert(fewer[i] == texts[i]);
        }
        law_short_texts_are_shown_whole(fewer);
        head.lemma_flatten_push(SEPARATOR@);
        head.push(SEPARATOR@).lemma_flatten_push(texts.last());
        assert(separated(texts) =~= head.push(SEPARATOR@).push(texts.last()));
        assert(texts[texts.len() - 1].len() <= 512);
    }
}

/// What the teacher is shown of the texts with numbers from `start` up to `end`.
pub fn teacher_prompt(texts: &Vec<String>, start: usize, end: usize) -> (r: String)
    requires
        start <= end <= texts@.len(),
    ensures
        r@ == prompt_of(text_views(texts@).subrange(start as int, end as int)),
{
    let ghost all = text_views(texts@);
    let mut prompt = String::new();
    let mut i: usize = start;
    assert(all.subrange(start as int, start as int) =~= Seq::empty());
    while i < end
        invariant
            all == text_views(texts@),
            start <= i <= end <= texts@.len(),
            prompt@ == prompt_of(all.subrange(start as int, i as int)),
        decreases end - i,
    {
        let text = take_chars(texts[i].as_str(), MAX_TEACHER_CHARS);
        let ghost done = all.subrange(start as int, i as int);
        let ghost next = all.subrange(start as int, i + 1);
        proof {
            assert(next.drop_last() =~= done);
            assert(next.last() == all[i as int]);
            assert(text@ == shown(all[i as int]));
        }
        if i > start {
            prompt.append(SEPARATOR);
        }
        prompt.append(text.as_str());
        proof {
            if i == start {
                assert(Seq::<char>::empty() + text@ =~= text@);
            }
        }
        i += 1;
    }
    prompt
}

/// The arguments of `llama-embedding` for a model and a prompt.
pub open spec fn llama_args(model_path: Seq<char>, prompt: Seq<char>) -> Seq<Seq<char>> {
    seq![
        "--model"@,
        model_path,
        "--pooling"@,
        "mean"@,
        "--embd-normalize"@,
        "2"@,
        "--embd-output-format"@,
        "json"@,
        "--embd-separator"@,
        SEPARATOR@,
        "--prompt"@,
        prompt,
        "--log-disable"@,
    ]
}

/// The teacher is asked with its model, for normalized means in JSON, with the separator
/// and the prompt, each behind the name of its option.
pub proof fn law_arguments_name_their_options(model_path: Seq<char>, prompt: Seq<char>)
    ensures
        ({
            let args = llama_args(model_path, prompt);
            &&& args.len() == 13
            &&& args[0] == "--model"@ && args[1] == model_path
            &&& args[2] == "--pooling"@ && args[3] == "mean"@
            &&& args[4] == "--embd-normalize"@ && args[5] == "2"@
            &&& args[6] == "--embd-output-format"@ && args[7] == "json"@
            &&& args[8] == "--embd-separator"@ && args[9] == "<#sep#>"@
            &&& args[10] == "--prompt"@ && args[11] == prompt
            &&& args[12] == "--log-disable"@
        }),
{
}

/// The arguments with which `llama-embedding` is asked for the embeddings of the
/// texts with numbers from `start` up to `end`.
pub fn llama_arguments(model_path: &str, texts: &Vec<String>, start: usize, end: usize) -> (r: Vec<
    String,
>)
    requires
        start <= end <= texts@.len(),
    ensures
        text_views(r@) == llama_args(
            model_path@,
            prompt_of(text_views(texts@).subrange(start as int, end as int)),
        ),
{
    let prompt = teacher_prompt(texts, start, end);
    let mut args: Vec<String> = Vec::new();
    args.push("--model".to_owned());
    args.push(model_path.to_owned());
    args.push("--pooling".to_owned());
    args.push("mean".to_owned());
    args.push("--embd-normalize".to_owned());
    args.push("2".to_owned());
    args.push("--embd-output-format".to_owned());
    args.push("json".to_owned());
    args.push("--embd-separator".to_owned());
    args.push(SEPARATOR.to_owned());
    args.push("--prompt".to_owned());
    args.push(prompt);
    args.push("--log-disable".to_owned());
    assert(text_views(args@) =~= llama_args(
        model_path@,
        prompt_of(text_views(texts@).subrange(start as int, end as int)),
    ));
    args
}

/// Why the answer of the teacher could not be read.
#[derive(Debug)]
pub enum TeacherError {
    /// The answer is not a JSON array.
    Malformed(serde_json::Error),
    /// An entry of the answer has no embedding.
    MissingEmbedding,
    /// The answer has another number of embeddings than the teacher was shown texts.
    Count { texts: usize, embeddings: usize },
}

/// The numbers in a list, without what is none.
pub open spec fn numbers(values: Seq<Option<u64>>) -> Seq<u64>
    decreases values.len(),
{
    if values.len() == 0 {
        Seq::empty()
    } else {
        match values.last() {
            Some(number) => numbers(values.drop_last()).push(number),
            None => numbers(values.drop_last()),
        }
    }
}

/// The numbers in a list are those of its first part and then those of its second. A
/// number is kept as it is, and what is none is left out.
pub proof fn law_numbers_keep_every_number(
    values: Seq<Option<u64>>,
    more: Seq<Option<u64>>,
    number: u64,
)
    ensures
        numbers(values + more) == numbers(values) + numbers(more),
        numbers(seq![Some(number)]) == seq![number],
        numbers(seq![None]).len() == 0,
        numbers(Seq::empty()).len() == 0,
    decreases more.len(),
{
    let some = seq![Some(number)];
    let none = seq![None];
    assert(some.drop_last() =~= Seq::empty());
    assert(none.drop_last() =~= Seq::empty());
    assert(numbers(some.drop_last()) =~= Seq::empty());
    assert(numbers(none.drop_last()) =~= Seq::empty());
    assert(numbers(some) =~= seq![number]);
    if more.len() == 0 {
        assert(values + more =~= values);
        assert(numbers(values) + numbers(more) =~= numbers(values));
    } else {
        assert((values + more).drop_last() =~= values + more.drop_last());
        law_numbers_keep_every_number(values, more.drop_last(), number);
        assert(numbers(values + more) =~= numbers(values) + numbers(more));
    }
}

/// Where every value in a list is a number, none is left out.
pub proof fn law_lists_of_numbers_are_kept_whole(values: Seq<Option<u64>>)
    requires
        forall|i: int| 0 <= i < values.len() ==> (#[trigger] values[i]) is Some,
    ensures
        numbers(values).len() == values.len(),
        forall|i: int| 0 <= i < values.len() ==> values[i] == Some(#[trigger] numbers(values)[i]),
    decreases values.len(),
{
    if values.len() > 0 {
        let fewer = values.drop_last();
        assert forall|i: int| 0 <= i < fewer.len() implies (#[trigger] fewer[i]) is Some by {
            assert(fewer[i] == values[i]);
        }
        law_lists_of_numbers_are_kept_whole(fewer);
        assert(values[values.len() - 1] is Some);
        assert forall|i: int| 0 <= i < values.len() implies values[i] == Some(
            #[trigger] numbers(values)[i],
        ) by {
            if i < fewer.len() {
                assert(fewer[i] == Some(numbers(fewer)[i]));
            }
        }
    }
}

/// The values in the embedding of one entry of an answer, if it has one: an array
/// under the key `embedding`.
pub open spec fn embedding_values(entry: Value) -> Option<Seq<Option<u64>>> {
    match crate::json::field_of(entry, "embedding"@) {
        None => None,
        Some(found) => match crate::json::items_of(found) {
            None => None,
            Some(values) => Some(
                Seq::new(values.len(), |k: int| crate::json::number_of(values[k])),
            ),
        },
    }
}

/// The entries of an answer, if it is a JSON array.
pub open spec fn answer_entries(json: Seq<char>) -> Option<Seq<Option<Seq<Option<u64>>>>> {
    match crate::json::values_of(json) {
        None => None,
        Some(values) => Some(Seq::new(values.len(), |i: int| embedding_values(values[i]))),
    }
}

/// The values of an entry, if it has any.
pub open spec fn entry_view(entry: Option<Vec<Option<u64>>>) -> Option<Seq<Option<u64>>> {
    match entry {
        Some(values) => Some(values@),
        None => None,
    }
}

/// The entries of a list.
pub open spec fn entry_views(entries: Seq<Option<Vec<Option<u64>>>>) -> Seq<
    Option<Seq<Option<u64>>>,
> {
    Seq::new(entries.len(), |i: int| entry_view(entries[i]))
}

/// Whether embeddings are those of entries, one of each.
pub open spec fn are_embeddings_of(
    embeddings: Seq<Vec<u64>>,
    entries: Seq<Option<Seq<Option<u64>>>>,
) -> bool {
    &&& embeddings.len() == entries.len()
    &&& forall|i: int|
        0 <= i < entries.len() ==> match #[trigger] entries[i] {
            Some(values) => embeddings[i]@ == numbers(values),
            None => false,
        }
}

/// An answer has an entry for each value of its array, and an entry the numbers that
/// stand in the array under its key `embedding`, in order.
pub proof fn law_answer_is_read_entry_by_entry(json: Seq<char>, i: int, k: int)
    ensures
        match crate::json::values_of(json) {
            Some(values) => match answer_entries(json) {
                Some(entries) => {
                    &&& entries.len() == values.len()
                    &&& 0 <= i < values.len() ==> match crate::json::field_of(
                        values[i],
                        "embedding"@,
                    ) {
                        Some(found) => match crate::json::items_of(found) {
                            Some(items) => match entries[i] {
                                Some(read) => {
                                    &&& read.len() == items.len()
                                    &&& 0 <= k < items.len() ==> read[k] == crate::json::number_of(
                                        items[k],
                                    )
                                },
                                None => false,
                            },
                            None => entries[i] is None,
                        },
                        None => entries[i] is None,
                    }
                },
                None => false,
            },
            None => answer_entries(json) is None,
        },
{
}

/// Embeddings are those of the entries one by one, and so there are none where an entry
/// has none.
pub proof fn law_every_entry_gives_its_embedding(
    embeddings: Seq<Vec<u64>>,
    entries: Seq<Option<Seq<Option<u64>>>>,
    i: int,
)
    requires
        are_embeddings_of(embeddings, entries),
    ensures
        embeddings.len() == entries.len(),
        0 <= i < entries.len() ==> match entries[i] {
            Some(values) => embeddings[i]@ == numbers(values),
            None => false,
        },
        !lacks_embedding(entries),
{
}

/// An entry is lacking exactly where one of the entries has no embedding.
pub proof fn law_entry_without_embedding_is_lacking(entries: Seq<Option<Seq<Option<u64>>>>)
    ensures
        lacks_embedding(entries) <==> !forall|i: int|
            0 <= i < entries.len() ==> (#[trigger] entries[i]) is Some,
{
}

/// Whether an entry has no embedding.
pub open spec fn lacks_embedding(entries: Seq<Option<Seq<Option<u64>>>>) -> bool {
    exists|i: int| 0 <= i < entries.len() && (#[trigger] entries[i]) is None
}

/// The numbers in a list.
fn numbers_of(values: &Vec<Option<u64>>) -> (r: Vec<u64>)
    ensures
        r@ == numbers(values@),
{
    let mut out: Vec<u64> = Vec::new();
    let mut i: usize = 0;
    assert(values@.take(0) =~= Seq::empty());
    while i < values.len()
        invariant
            i <= values@.len(),
            out@ == numbers(values@.take(i as int)),
        decreases values@.len() - i,
    {
        assert(values@.take(i + 1).drop_last() =~= values@.take(i as int));
        if let Some(number) = values[i] {
            out.push(number);
        }
        i += 1;
    }
    assert(values@.take(i as int) =~= values@);
    out
}

/// The embeddings in the entries of an answer. Values that are no numbers are left
/// out; an entry without an embedding is an error.
pub fn collect_embeddings(entries: &Vec<Option<Vec<Option<u64>>>>) -> (r: Result<
    Vec<Vec<u64>>,
    TeacherError,
>)
    ensures
        match r {
            Ok(embeddings) => are_embeddings_of(embeddings@, entry_views(entries@)),
            Err(error) => error is MissingEmbedding && lacks_embedding(entry_views(entries@)),
        },
{
    let ghost views = entry_views(entries@);
    let mut out: Vec<Vec<u64>> = Vec::new();
    let mut i: usize = 0;
    while i < entries.len()
        invariant
            views == entry_views(entries@),
            i <= entries@.len(),
            out@.len() == i,
            forall|k: int|
                0 <= k < i ==> match #[trigger] views[k] {
                    Some(values) => out@[k]@ == numbers(values),
                    None => false,
                },
        decreases entries@.len() - i,
    {
        assert(views[i as int] == entry_view(entries@[i as int]));
        match &entries[i] {
            Some(values) => out.push(numbers_of(values)),
            None => return Err(TeacherError::MissingEmbedding),
        }
        i += 1;
    }
    Ok(out)
}

/// The values in the embedding of one entry of an answer.
fn read_entry(entry: &Value) -> (r: Option<Vec<Option<u64>>>)
    ensures
        entry_view(r) == embedding_values(*entry),
{
    let found = match field(entry, "embedding") {
        Some(found) => found,
        None => return None,
    };
    let values = match items(found) {
        Some(values) => values,
        None => return None,
    };
    let mut out: Vec<Option<u64>> = Vec::new();
    let mut i: usize = 0;
    while i < values.len()
        invariant
            i <= values@.len(),
            out@.len() == i,
            forall|k: int| 0 <= k < i ==> #[trigger] out@[k] == crate::json::number_of(values@[k]),
        decreases values@.len() - i,
    {
        out.push(number_bits(&values[i]));
        i += 1;
    }
    assert(out@ =~= Seq::new(values@.len(), |k: int| crate::json::number_of(values@[k])));
    Some(out)
}

/// Read the answer of `llama-embedding`: the embedding of each entry.
pub fn parse_embeddings(json: &str) -> (r: Result<Vec<Vec<u64>>, TeacherError>)
    ensures
        match answer_entries(json@) {
            None => r matches Err(error) && error is Malformed,
            Some(entries) => match r {
                Ok(embeddings) => are_embeddings_of(embeddings@, entries),
                Err(error) => error is MissingEmbedding && lacks_embedding(entries),
            },
        },
{
    let values = match parse_values(json) {
        Ok(values) => values,
        Err(error) => return Err(TeacherError::Malformed(error)),
    };
    let mut entries: Vec<Option<Vec<Option<u64>>>> = Vec::new();
    let mut i: usize = 0;
    while i < values.len()
        invariant
            i <= values@.len(),
            entries@.len() == i,
            forall|k: int|
                0 <= k < i ==> entry_view(#[trigger] entries@[k]) == embedding_values(values@[k]),
        decreases values@.len() - i,
    {
        entries.push(read_entry(&values[i]));
        i += 1;
    }
    assert(entry_views(entries@) =~= Seq::new(
        values@.len(),
        |k: int| embedding_values(values@[k]),
    ));
    collect_embeddings(&entries)
}

/// Texts with the embeddings that they got, one for each.
pub open spec fn paired(texts: Seq<Seq<char>>, embeddings: Seq<Seq<u32>>) -> Seq<
    (Seq<char>, Seq<u32>),
>
    recommends
        texts.len() == embeddings.len(),
{
    Seq::new(texts.len(), |i: int| (texts[i], embeddings[i]))
}

/// The texts and embeddings of samples.
pub open spec fn sample_views(samples: Seq<TeacherSample>) -> Seq<(Seq<char>, Seq<u32>)> {
    Seq::new(samples.len(), |i: int| (samples[i].text@, samples[i].embedding@))
}

/// The numbers of a list of embeddings.
pub open spec fn embedding_views(embeddings: Seq<Vec<u32>>) -> Seq<Seq<u32>> {
    Seq::new(embeddings.len(), |i: int| embeddings[i]@)
}

/// Add a sample for each of the texts with numbers from `start` up to `end`, with
/// the embeddings that the teacher gave them.
fn add_samples(
    samples: &mut Vec<TeacherSample>,
    texts: &Vec<String>,
    start: usize,
    end: usize,
    embeddings: Vec<Vec<u32>>,
)
    requires
        start <= end <= texts@.len(),
        embeddings@.len() == end - start,
    ensures
        sample_views(final(samples)@) == sample_views(old(samples)@) + paired(
            text_views(texts@).subrange(start as int, end as int),
            embedding_views(embeddings@),
        ),
{
    let ghost chunk = text_views(texts@).subrange(start as int, end as int);
    let ghost added = paired(chunk, embedding_views(embeddings@));
    let mut i: usize = start;
    assert(added.take(0) =~= Seq::empty());
    for embedding in it: embeddings
        invariant
            start <= i <= end <= texts@.len(),
            chunk == text_views(texts@).subrange(start as int, end as int),
            added == paired(chunk, embedding_views(it.seq())),
            it.seq().len() == end - start,
            i - start == it.index(),
            sample_views(samples@) == sample_views(old(samples)@) + added.take(i - start),
    {
        let ghost before = samples@;
        assert(added[i - start] == (chunk[i - start], embedding@));
        samples.push(TeacherSample { text: texts[i].clone(), embedding });
        assert(sample_views(samples@) =~= sample_views(before).push(added[i - start]));
        assert(sample_views(samples@) =~= sample_views(old(samples)@) + added.take(i - start + 1));
        i += 1;
    }
    assert(added.take(i - start) =~= added);
}

/// The samples after a number of batches, each answered with a list of embeddings.
pub open spec fn samples_after(
    texts: Seq<Seq<char>>,
    batch_size: nat,
    answers: Seq<Seq<Seq<u32>>>,
    batches: nat,
) -> Seq<(Seq<char>, Seq<u32>)>
    decreases batches,
{
    if batches == 0 {
        Seq::empty()
    } else {
        let last = (batches - 1) as nat;
        let (start, end) = crate::dataset::chunk(texts.len(), batch_size, last as int);
        samples_after(texts, batch_size, answers, last) + paired(
            texts.subrange(start, end),
            answers[last as int],
        )
    }
}

/// Samples, embeddings and entries are taken item by item, and texts are paired with
/// embeddings number by number.
pub proof fn law_samples_are_taken_item_by_item(
    samples: Seq<TeacherSample>,
    embeddings: Seq<Vec<u32>>,
    entries: Seq<Option<Vec<Option<u64>>>>,
    texts: Seq<Seq<char>>,
    given: Seq<Seq<u32>>,
    i: int,
)
    ensures
        sample_views(samples).len() == samples.len(),
        sample_texts(samples).len() == samples.len(),
        embedding_views(embeddings).len() == embeddings.len(),
        entry_views(entries).len() == entries.len(),
        paired(texts, given).len() == texts.len(),
        0 <= i < samples.len() ==> sample_views(samples)[i].0 == samples[i].text@
            && sample_views(samples)[i].1 == samples[i].embedding@ && sample_texts(samples)[i]
            == samples[i].text@,
        0 <= i < embeddings.len() ==> embedding_views(embeddings)[i] == embeddings[i]@,
        0 <= i < entries.len() ==> match entries[i] {
            Some(values) => entry_views(entries)[i] == Some(values@),
            None => entry_views(entries)[i] is None,
        },
        0 <= i < texts.len() ==> paired(texts, given)[i].0 == texts[i] && paired(texts, given)[i].1
            == given[i],
{
}

/// Where the teacher answers every batch with one embedding for each text, each text gets
/// the embedding that stands at its own place in the answer to its own batch.
pub proof fn law_sample_has_the_embedding_of_its_text(
    texts: Seq<Seq<char>>,
    batch_size: nat,
    answers: Seq<Seq<Seq<u32>>>,
    i: int,
)
    requires
        batch_size > 0,
        answers.len() == crate::dataset::chunk_count(texts.len(), batch_size),
        forall|k: int|
            0 <= k < answers.len() ==> (#[trigger] answers[k]).len() == crate::dataset::chunk(
                texts.len(),
                batch_size,
                k,
            ).1 - crate::dataset::chunk(texts.len(), batch_size, k).0,
        0 <= i < texts.len(),
    ensures
        ({
            let samples = samples_after(texts, batch_size, answers, answers.len());
            &&& samples.len() == texts.len()
            &&& samples[i].0 == texts[i]
            &&& samples[i].1 == answers[i / (batch_size as int)][i % (batch_size as int)]
        }),
{
    let size = batch_size as int;
    let k = i / size;
    law_full_answers_keep_every_text(texts, batch_size, answers);
    assert(i == k * size + i % size && 0 <= i % size < size && 0 <= k) by (nonlinear_arith)
        requires
            size > 0,
            i >= 0,
            k == i / size,
    ;
    lemma_embedding_in_batch(texts, batch_size, answers, answers.len(), k, i % size);
}

proof fn lemma_embedding_in_batch(
    texts: Seq<Seq<char>>,
    batch_size: nat,
    answers: Seq<Seq<Seq<u32>>>,
    batches: nat,
    k: int,
    place: int,
)
    requires
        batch_size > 0,
        answers.len() == crate::dataset::chunk_count(texts.len(), batch_size),
        batches <= answers.len(),
        forall|k: int|
            0 <= k < answers.len() ==> (#[trigger] answers[k]).len() == crate::dataset::chunk(
                texts.len(),
                batch_size,
                k,
            ).1 - crate::dataset::chunk(texts.len(), batch_size, k).0,
        0 <= k,
        0 <= place < batch_size,
        k * batch_size + place < samples_after(texts, batch_size, answers, batches).len(),
    ensures
        samples_after(texts, batch_size, answers, batches)[k * batch_size + place].1
            == answers[k][place],
    decreases batches,
{
    let size = batch_size as int;
    lemma_samples_after(texts, batch_size, answers, batches);
    assert(0 <= k * size) by (nonlinear_arith)
        requires
            0 <= k,
            0 < size,
    ;
    if batches > 0 {
        let last = batches - 1;
        let head = samples_after(texts, batch_size, answers, last as nat);
        lemma_samples_after(texts, batch_size, answers, last as nat);
        crate::dataset::law_chunks_partition(texts.len(), batch_size, last);
        assert(0 * size == 0) by (nonlinear_arith);
        if last > 0 {
            crate::dataset::law_chunks_partition(texts.len(), batch_size, last - 1);
        }
        assert(head.len() == last * size);
        if k < last {
            assert(k * size + size <= last * size) by (nonlinear_arith)
                requires
                    k + 1 <= last,
                    0 < size,
            ;
            lemma_embedding_in_batch(texts, batch_size, answers, last as nat, k, place);
        } else {
            let (start, end) = crate::dataset::chunk(texts.len(), batch_size, last);
            assert((last + 1) * size == last * size + size) by (nonlinear_arith);
            if k > last {
                assert(k * size >= (last + 1) * size) by (nonlinear_arith)
                    requires
                        k >= last + 1,
                        0 < size,
                ;
            }
            assert(k == last);
            assert(samples_after(texts, batch_size, answers, batches)[head.len() + place]
                == paired(texts.subrange(start, end), answers[last])[place]);
        }
    }
}

/// Where the teacher answers every batch with one embedding for each text, every
/// text gets one sample, in order.
pub proof fn law_full_answers_keep_every_text(
    texts: Seq<Seq<char>>,
    batch_size: nat,
    answers: Seq<Seq<Seq<u32>>>,
)
    requires
        batch_size > 0,
        answers.len() == crate::dataset::chunk_count(texts.len(), batch_size),
        forall|k: int|
            0 <= k < answers.len() ==> (#[trigger] answers[k]).len() == crate::dataset::chunk(
                texts.len(),
                batch_size,
                k,
            ).1 - crate::dataset::chunk(texts.len(), batch_size, k).0,
    ensures
        ({
            let samples = samples_after(texts, batch_size, answers, answers.len());
            &&& samples.len() == texts.len()
            &&& forall|i: int| 0 <= i < texts.len() ==> (#[trigger] samples[i]).0 == texts[i]
        }),
{
    lemma_samples_after(texts, batch_size, answers, answers.len());
    if texts.len() > 0 {
        let count = answers.len() as int;
        assert(count > 0) by (nonlinear_arith)
            requires
                count == (texts.len() + batch_size - 1) / (batch_size as int),
                texts.len() > 0,
                batch_size > 0,
        ;
        crate::dataset::law_chunks_partition(texts.len(), batch_size, count - 1);
    } else {
        assert(answers.len() == 0) by (nonlinear_arith)
            requires
                answers.len() == (batch_size - 1) / (batch_size as int),
                batch_size > 0,
        ;
    }
}

proof fn lemma_samples_after(
    texts: Seq<Seq<char>>,
    batch_size: nat,
    answers: Seq<Seq<Seq<u32>>>,
    batches: nat,
)
    requires
        batch_size > 0,
        answers.len() == crate::dataset::chunk_count(texts.len(), batch_size),
        batches <= answers.len(),
        forall|k: int|
            0 <= k < answers.len() ==> (#[trigger] answers[k]).len() == crate::dataset::chunk(
                texts.len(),
                batch_size,
                k,
            ).1 - crate::dataset::chunk(texts.len(), batch_size, k).0,
    ensures
        ({
            let samples = samples_after(texts, batch_size, answers, batches);
            &&& samples.len() == if batches == 0 {
                0
            } else {
                crate::dataset::chunk(texts.len(), batch_size, batches - 1).1
            }
            &&& forall|i: int| 0 <= i < samples.len() ==> (#[trigger] samples[i]).0 == texts[i]
        }),
    decreases batches,
{
    if batches > 0 {
        let last = (batches - 1) as nat;
        lemma_samples_after(texts, batch_size, answers, last);
        crate::dataset::law_chunks_partition(texts.len(), batch_size, last as int);
        if last > 0 {
            crate::dataset::law_chunks_partition(texts.len(), batch_size, last - 1);
        }
    }
}

/// The generation of teacher embeddings, a batch of texts at a time.
///
/// The arguments for the next batch come from [`TeacherRun::next_arguments`], and
/// the embeddings that `llama-embedding` gives for them go to
/// [`TeacherRun::accept`], until no batch is left.
pub struct TeacherRun {
    model_path: String,
    batch_size: usize,
    texts: Vec<String>,
    next: usize,
    samples: Vec<TeacherSample>,
    answers: Ghost<Seq<Seq<Seq<u32>>>>,
}

impl TeacherRun {
    /// The path of the teacher.
    pub closed spec fn model_path(&self) -> Seq<char> {
        self.model_path@
    }

    /// How many texts the teacher is shown at a time.
    pub closed spec fn batch_size(&self) -> nat {
        self.batch_size as nat
    }

    /// The texts that the teacher is asked about.
    pub closed spec fn texts(&self) -> Seq<Seq<char>> {
        text_views(self.texts@)
    }

    /// The embeddings that the teacher gave for the batches so far.
    pub closed spec fn answers(&self) -> Seq<Seq<Seq<u32>>> {
        self.answers@
    }

    /// The texts and embeddings of the samples so far.
    pub closed spec fn sample_views(&self) -> Seq<(Seq<char>, Seq<u32>)> {
        sample_views(self.samples@)
    }

    /// How many batches there are in all.
    pub open spec fn batches(&self) -> nat {
        crate::dataset::chunk_count(self.texts().len(), self.batch_size())
    }

    /// The texts of the batch with a number.
    pub open spec fn batch(&self, k: int) -> Seq<Seq<char>> {
        let (start, end) = crate::dataset::chunk(self.texts().len(), self.batch_size(), k);
        self.texts().subrange(start, end)
    }

    /// What holds of a run at every time.
    pub closed spec fn wf(&self) -> bool {
        &&& self.batch_size > 0
        &&& self.next <= self.texts@.len()
        &&& self.answers@.len() <= self.batches()
        &&& self.next < self.texts@.len() <==> self.answers@.len() < self.batches()
        &&& self.next < self.texts@.len() ==> self.next == self.answers@.len() * self.batch_size
        &&& forall|k: int|
            0 <= k < self.answers@.len() ==> (#[trigger] self.answers@[k]).len()
                == crate::dataset::chunk(self.texts().len(), self.batch_size as nat, k).1
                - crate::dataset::chunk(self.texts().len(), self.batch_size as nat, k).0
        &&& sample_views(self.samples@) == samples_after(
            self.texts(),
            self.batch_size as nat,
            self.answers@,
            self.answers@.len(),
        )
    }

    /// Begin a run over the texts of pairs.
    pub fn start(pairs: &Vec<TextPair>, config: &TeacherConfig) -> (r: TeacherRun)
        requires
            config.batch_size > 0,
        ensures
            r.wf(),
            r.model_path() == config.model_path@,
            r.batch_size() == config.batch_size,
            is_sorted(r.texts()),
            r.texts().no_duplicates(),
            forall|text: Seq<char>| #[trigger]
                r.texts().contains(text) <==> is_text_of(pairs@, text),
            r.answers() == Seq::<Seq<Seq<u32>>>::empty(),
            r.sample_views() == Seq::<(Seq<char>, Seq<u32>)>::empty(),
    {
        let texts = unique_texts(pairs);
        let samples: Vec<TeacherSample> = Vec::new();
        proof {
            crate::dataset::lemma_chunk_count(texts@.len(), config.batch_size as nat, 0);
            assert(0 * config.batch_size == 0) by (nonlinear_arith);
            assert(sample_views(samples@) =~= Seq::empty());
        }
        TeacherRun {
            model_path: config.model_path.clone(),
            batch_size: config.batch_size,
            texts,
            next: 0,
            samples,
            answers: Ghost(Seq::empty()),
        }
    }

    /// The end of the batch that is next.
    fn next_end(&self) -> (r: usize)
        requires
            self.wf(),
            self.answers().len() < self.batches(),
        ensures
            self.next <= r <= self.texts@.len(),
            crate::dataset::chunk(
                self.texts().len(),
                self.batch_size(),
                self.answers().len() as int,
            ) == (self.next as int, r as int),
    {
        proof {
            let k = self.answers@.len() as int;
            let size = self.batch_size as int;
            assert((k + 1) * size == k * size + size) by (nonlinear_arith);
            assert(self.texts@.len() == self.texts().len());
        }
        if self.texts.len() - self.next > self.batch_size {
            self.next + self.batch_size
        } else {
            self.texts.len()
        }
    }

    /// How many texts the teacher is asked about.
    pub fn total(&self) -> (r: usize)
        ensures
            r == self.texts().len(),
    {
        assert(self.texts@.len() == self.texts().len());
        self.texts.len()
    }

    /// The arguments of `llama-embedding` for the batch that is next, if there is
    /// one.
    pub fn next_arguments(&self) -> (r: Option<Vec<String>>)
        requires
            self.wf(),
        ensures
            match r {
                Some(args) => {
                    &&& self.answers().len() < self.batches()
                    &&& text_views(args@) == llama_args(
                        self.model_path(),
                        prompt_of(self.batch(self.answers().len() as int)),
                    )
                },
                None => self.answers().len() == self.batches(),
            },
    {
        if self.next == self.texts.len() {
            return None;
        }
        let end = self.next_end();
        Some(llama_arguments(self.model_path.as_str(), &self.texts, self.next, end))
    }

    /// Take the embeddings of the batch that is next. It is an error where there
    /// are not as many of them as the batch has texts.
    pub fn accept(&mut self, embeddings: Vec<Vec<u32>>) -> (r: Result<(), TeacherError>)
        requires
            old(self).wf(),
            old(self).answers().len() < old(self).batches(),
        ensures
            final(self).wf(),
            final(self).model_path() == old(self).model_path(),
            final(self).batch_size() == old(self).batch_size(),
            final(self).texts() == old(self).texts(),
            ({
                let batch = old(self).batch(old(self).answers().len() as int);
                if embeddings@.len() == batch.len() {
                    &&& r is Ok
                    &&& final(self).answers() == old(self).answers().push(
                        embedding_views(embeddings@),
                    )
                    &&& final(self).sample_views() == old(self).sample_views() + paired(
                        batch,
                        embedding_views(embeddings@),
                    )
                } else {
                    &&& r matches Err(TeacherError::Count { texts, embeddings: given })
                    &&& texts == batch.len()
                    &&& given == embeddings@.len()
                    &&& final(self).answers() == old(self).answers()
                    &&& final(self).sample_views() == old(self).sample_views()
                }
            }),
    {
        let end = self.next_end();
        let ghost answer = embedding_views(embeddings@);
        let ghost given = self.answers@;
        proof {
            let k = given.len() as int;
            let size = self.batch_size as int;
            let total = self.texts().len();
            assert(self.texts@.len() == total);
            crate::dataset::lemma_chunk_count(total, self.batch_size as nat, k + 1);
            assert((k + 1) * size == k * size + size) by (nonlinear_arith);
            lemma_samples_prefix(
                self.texts(),
                self.batch_size as nat,
                given,
                given.push(answer),
                given.len(),
            );
        }
        if embeddings.len() != end - self.next {
            return Err(
                TeacherError::Count { texts: end - self.next, embeddings: embeddings.len() },
            );
        }
        add_samples(&mut self.samples, &self.texts, self.next, end, embeddings);
        self.next = end;
        self.answers = Ghost(given.push(answer));
        Ok(())
    }

    /// The samples of a run. Where no batch is left, there is one for every text, in
    /// order.
    pub fn into_samples(self) -> (r: Vec<TeacherSample>)
        requires
            self.wf(),
        ensures
            sample_views(r@) == self.sample_views(),
            sample_views(r@) == samples_after(
                self.texts(),
                self.batch_size(),
                self.answers(),
                self.answers().len(),
            ),
            self.answers().len() == self.batches() ==> sample_texts(r@) == self.texts(),
    {
        proof {
            if self.answers().len() == self.batches() {
                law_full_answers_keep_every_text(
                    self.texts(),
                    self.batch_size(),
                    self.answers(),
                );
                let views = sample_views(self.samples@);
                assert(views.len() == self.samples@.len());
                assert forall|i: int| 0 <= i < self.texts().len() implies sample_texts(
                    self.samples@,
                )[i] == #[trigger] self.texts()[i] by {
                    assert(views[i].0 == self.texts()[i]);
                }
                assert(sample_texts(self.samples@) =~= self.texts());
            }
        }
        self.samples
    }
}

proof fn lemma_samples_prefix(
    texts: Seq<Seq<char>>,
    batch_size: nat,
    answers: Seq<Seq<Seq<u32>>>,
    more: Seq<Seq<Seq<u32>>>,
    batches: nat,
)
    requires
        batches <= answers.len() <= more.len(),
        forall|k: int| 0 <= k < answers.len() ==> answers[k] == #[trigger] more[k],
    ensures
        samples_after(texts, batch_size, answers, batches) == samples_after(
            texts,
            batch_size,
            more,
            batches,
        ),
    decreases batches,
{
    if batches > 0 {
        lemma_samples_prefix(texts, batch_size, answers, more, (batches - 1) as nat);
        assert(answers[batches - 1] == more[batches - 1]);
    }
}

/// The teacher is shown the texts batch by batch, in order: each batch goes on where the
/// one before it stopped, and has as many texts as a batch has, or those that are left.
pub proof fn law_batches_go_through_the_texts(run: &TeacherRun, k: int, i: int)
    requires
        run.batch_size() > 0,
        0 <= k < run.batches(),
    ensures
        run.batch(k).len() == if run.texts().len() - k * run.batch_size() < run.batch_size() {
            run.texts().len() - k * run.batch_size()
        } else {
            run.batch_size() as int
        },
        run.batch(k).len() > 0,
        0 <= i < run.batch(k).len() ==> run.batch(k)[i] == run.texts()[k * run.batch_size() + i],
{
    let size = run.batch_size();
    crate::dataset::law_chunks_partition(run.texts().len(), size, k);
    assert((k + 1) * size == k * size + size) by (nonlinear_arith);
}

/// The dimension of the teacher's embeddings, by the first of them.
pub fn teacher_dim(samples: &Vec<TeacherSample>) -> (r: usize)
    ensures
        r == if samples@.len() == 0 {
            EMBED_DIM as nat
        } else {
            samples@[0].embedding@.len()
        },
{
    if samples.len() == 0 {
        EMBED_DIM
    } else {
        samples[0].embedding.len()
    }
}

/// What the student is trained to give for an embedding of the teacher: its first
/// numbers, filled up with zeros.
pub open spec fn target_of(embedding: Seq<u32>) -> Seq<u32> {
    Seq::new(
        EMBED_DIM as nat,
        |i: int|
            if i < embedding.len() {
                embedding[i]
            } else {
                0
            },
    )
}

/// A teacher's embedding that is too wide for the student is cut to its front, and
/// one that is too narrow is filled up with zeros.
pub proof fn law_target_fits_the_student(embedding: Seq<u32>)
    ensures
        target_of(embedding).len() == EMBED_DIM,
        embedding.len() >= EMBED_DIM ==> target_of(embedding) == embedding.take(EMBED_DIM as int),
        embedding.len() <= EMBED_DIM ==> target_of(embedding) == embedding + Seq::new(
            (EMBED_DIM - embedding.len()) as nat,
            |i: int| 0u32,
        ),
{
    if embedding.len() >= EMBED_DIM {
        assert(target_of(embedding) =~= embedding.take(EMBED_DIM as int));
    }
    if embedding.len() <= EMBED_DIM {
        assert(target_of(embedding) =~= embedding + Seq::new(
            (EMBED_DIM - embedding.len()) as nat,
            |i: int| 0u32,
        ));
    }
}

/// Append what the student is trained to give for an embedding.
fn extend_targets(flat_targets: &mut Vec<u32>, embedding: &Vec<u32>)
    ensures
        final(flat_targets)@ == old(flat_targets)@ + target_of(embedding@),
{
    let ghost target = target_of(embedding@);
    let mut i: usize = 0;
    while i < EMBED_DIM
        invariant
            i <= EMBED_DIM,
            target == target_of(embedding@),
            flat_targets@ == old(flat_targets)@ + target.take(i as int),
        decreases EMBED_DIM - i,
    {
        flat_targets.push(
            if i < embedding.len() {
                embedding[i]
            } else {
                0
            },
        );
        i += 1;
        assert(flat_targets@ =~= old(flat_targets)@ + target.take(i as int));
    }
    assert(target.take(i as int) =~= target);
}

/// The input of a distillation step: tokenized texts and, for each, what the
/// student is trained to give, in rows of [`EMBED_DIM`] numbers.
#[derive(Debug, Clone)]
pub struct DistillBatch {
    pub tokens: TokenBatch,
    pub targets: Vec<u32>,
}

/// The texts of samples.
pub open spec fn sample_texts(samples: Seq<TeacherSample>) -> Seq<Seq<char>> {
    Seq::new(samples.len(), |i: int| samples[i].text@)
}

/// What the student is trained to give for samples.
pub open spec fn target_rows(samples: Seq<TeacherSample>) -> Seq<Seq<u32>> {
    Seq::new(samples.len(), |i: int| target_of(samples[i].embedding@))
}

/// The targets of some samples stand row by row: at each column of a row the number that
/// the sample's own embedding has there, or zero where it has none.
pub proof fn law_targets_are_those_of_the_samples(
    samples: Seq<TeacherSample>,
    row: int,
    column: int,
)
    requires
        0 <= row < samples.len(),
        0 <= column < 384,
    ensures
        crate::dataset::flat(target_rows(samples)).len() == samples.len() * 384,
        crate::dataset::flat(target_rows(samples))[row * 384 + column] == if column
            < samples[row].embedding@.len() {
            samples[row].embedding@[column]
        } else {
            0
        },
{
    crate::dataset::law_flat_is_row_major(target_rows(samples), EMBED_DIM as nat, row, column);
}

/// Lay the samples with numbers from `start` up to `end` out as one batch.
pub fn distill_batch(
    tokenizer: &Tokenizer,
    samples: &Vec<TeacherSample>,
    start: usize,
    end: usize,
) -> (r: Result<DistillBatch, TokenizerError>)
    requires
        crate::bpe::tokenizer_state(*tokenizer).applies,
        start <= end <= samples@.len(),
    ensures
        ({
            let chosen = samples@.subrange(start as int, end as int);
            match r {
                Ok(batch) => {
                    &&& crate::dataset::is_batch_of(*tokenizer, sample_texts(chosen), batch.tokens)
                    &&& batch.targets@ == crate::dataset::flat(target_rows(chosen))
                    &&& batch.targets@.len() == chosen.len() * EMBED_DIM
                },
                Err(error) => crate::dataset::is_first_error(
                    *tokenizer,
                    sample_texts(chosen),
                    error,
                ),
            }
        }),
{
    let ghost chosen = samples@.subrange(start as int, end as int);
    let mut texts: Vec<&str> = Vec::new();
    let mut targets: Vec<u32> = Vec::new();
    let mut i: usize = start;
    assert(chosen.take(0) =~= Seq::empty());
    while i < end
        invariant
            start <= i <= end <= samples@.len(),
            chosen == samples@.subrange(start as int, end as int),
            crate::dataset::str_views(texts@) == sample_texts(chosen.take(i - start)),
            targets@ == crate::dataset::flat(target_rows(chosen.take(i - start))),
        decreases end - i,
    {
        let ghost before = texts@;
        texts.push(samples[i].text.as_str());
        extend_targets(&mut targets, &samples[i].embedding);
        proof {
            let done = chosen.take(i - start);
            let more = chosen.take(i - start + 1);
            assert(more.last() == samples@[i as int]);
            assert(crate::dataset::str_views(texts@) =~= crate::dataset::str_views(before).push(
                samples@[i as int].text@,
            ));
            assert(sample_texts(more) =~= sample_texts(done).push(samples@[i as int].text@));
            assert(target_rows(more).drop_last() =~= target_rows(done));
        }
        i += 1;
    }
    proof {
        assert(chosen.take(i - start) =~= chosen);
        assert(texts@.len() == crate::dataset::str_views(texts@).len());
        crate::dataset::lemma_flat_len(target_rows(chosen), EMBED_DIM as nat);
    }
    match encode_rows(tokenizer, &texts) {
        Ok(tokens) => Ok(DistillBatch { tokens, targets }),
        Err(error) => Err(error),
    }
}

} // verus!
