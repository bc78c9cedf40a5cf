//! The tokenizer of the legal corpus: training, loading and encoding.

use vstd::prelude::*;

use tokenizers::Tokenizer;

use crate::bpe::{
    added_tokens_of, bare_tokenizer, bpe_trainer, count_unmerged, dropout_bits, encode_text,
    read_tokenizer, trained_tokenizer, truncation_of, write_json, MAX_DOC_CHARS,
    MAX_TOKENIZER_DOCS,
};
use crate::json::parse_value;
use crate::stored::can_be_read;
use crate::data::text_views;
use crate::text::take_chars;

verus! {

/// The token that fills a text up.
pub const PAD_TOKEN: &'static str = "[PAD]";

/// The token that is set aside for what the vocabulary does not know.
pub const UNK_TOKEN: &'static str = "[UNK]";

/// The id of the padding token.
pub const PAD_ID: u32 = 0;

/// The size of the vocabulary.
pub const VOCAB_SIZE: usize = 32_000;

/// The number of tokens that every text is encoded to.
pub const MAX_SEQ_LEN: usize = 128;

/// Why a tokenizer could not be made, kept or used.
#[derive(Debug)]
pub enum TokenizerError {
    /// The tokenizer could not be set up or its model could not be trained.
    Training(String),
    /// The stored tokenizer could not be read.
    Loading(String),
    /// The tokenizer could not be written.
    Saving(String),
    /// The text has more tokens than the tokenizer can truncate.
    UnsoundTruncation,
    /// The text could not be encoded.
    Encoding(String),
    /// The text was encoded to another number of tokens than every text must have.
    Length,
}

/// The distance between the documents that a tokenizer is trained on, so that
/// they are spread evenly over the corpus.
pub open spec fn sample_step(documents: nat) -> nat {
    if documents > MAX_TOKENIZER_DOCS {
        documents / (MAX_TOKENIZER_DOCS as nat)
    } else {
        1
    }
}

/// The first characters of a document, as many as a tokenizer is trained on.
pub open spec fn shortened(doc: Seq<char>) -> Seq<char> {
    if doc.len() <= MAX_DOC_CHARS {
        doc
    } else {
        doc.take(MAX_DOC_CHARS as int)
    }
}

/// How many documents a tokenizer is trained on.
pub open spec fn sample_size(documents: nat) -> nat {
    if documents > MAX_TOKENIZER_DOCS {
        MAX_TOKENIZER_DOCS as nat
    } else {
        documents
    }
}

/// The texts that a tokenizer is trained on: an even sample of the corpus, each
/// document cut short.
pub open spec fn training_texts(corpus: Seq<Seq<char>>) -> Seq<Seq<char>> {
    Seq::new(
        sample_size(corpus.len()),
        |i: int| shortened(corpus[i * sample_step(corpus.len())]),
    )
}

/// The special tokens, in the order of their ids.
pub open spec fn special_tokens() -> Seq<Seq<char>> {
    seq![PAD_TOKEN@, UNK_TOKEN@]
}

/// What a tokenizer trained here is like: it gives every text the same number of
/// tokens, with ids that the vocabulary has room for, and the padding token has
/// the padding id.
pub open spec fn is_legal_tokenizer(tokenizer: Tokenizer) -> bool {
    let state = crate::bpe::tokenizer_state(tokenizer);
    &&& crate::bpe::has_fixed_length(state, MAX_SEQ_LEN as nat, PAD_ID)
    &&& state.padding matches Some(padding) && padding.pad_token == PAD_TOKEN@
    &&& state.id_bound <= VOCAB_SIZE
    &&& state.special_tokens == special_tokens()
    &&& state.applies
    &&& state.plain_model
    &&& state.nfc
    &&& state.byte_level
    &&& state.trained
    &&& state.no_decoder
    &&& !state.random
}

/// Which tokens of a text count, by its attention mask.
pub open spec fn mask_of(attention: Seq<u32>) -> Seq<bool> {
    Seq::new(attention.len(), |i: int| attention[i] == 1)
}

/// The ids and the mask of a text, if a tokenizer without randomness can encode
/// it.
pub open spec fn encoded(tokenizer: Tokenizer, text: Seq<char>) -> Option<(Seq<u32>, Seq<bool>)> {
    match crate::bpe::encoding_of(tokenizer, text, true) {
        Some((ids, attention)) => Some((ids, mask_of(attention))),
        None => None,
    }
}

/// Which tokens of a text count, where they are cut to a length or filled up to it.
pub open spec fn fitted_mask(tokens: Seq<u32>, length: nat) -> Seq<bool> {
    Seq::new(length, |i: int| i < tokens.len())
}

/// Whether ids and a mask are those of a text whose tokens are cut to a length, or
/// filled up to it with padding: the tokens are those that the text has without
/// truncation and padding.
pub open spec fn is_fitted_text(
    tokenizer: Tokenizer,
    text: Seq<char>,
    length: nat,
    pad_id: u32,
    ids: Seq<u32>,
    mask: Seq<bool>,
) -> bool {
    match crate::bpe::encoding_of(crate::bpe::bare_of(tokenizer), text, true) {
        Some((tokens, _)) => {
            &&& ids == crate::bpe::fitted(tokens, length, pad_id)
            &&& mask == fitted_mask(tokens, length)
        },
        None => false,
    }
}

/// Whether a tokenizer brings every text to a length, by cutting it or by padding it,
/// without randomness.
pub open spec fn fits_texts(tokenizer: Tokenizer, length: nat, pad_id: u32) -> bool {
    let state = crate::bpe::tokenizer_state(tokenizer);
    0 < length && !state.random && crate::bpe::has_fixed_length(state, length, pad_id)
}

/// Whether a mask marks the first `tokens` of some ids and nothing else, and the
/// rest of the ids are padding.
pub open spec fn marks_tokens(ids: Seq<u32>, mask: Seq<bool>, tokens: int) -> bool {
    &&& 0 <= tokens <= ids.len()
    &&& forall|i: int| 0 <= i < mask.len() ==> #[trigger] mask[i] == (i < tokens)
    &&& forall|i: int| tokens <= i < ids.len() ==> #[trigger] ids[i] == PAD_ID
}

/// Whether ids and a mask are those of a text filled up to the common length:
/// the tokens of the text come first, the mask marks them and nothing else, and
/// everything behind them is padding. Each id has its row in the embedding table.
pub open spec fn is_fixed_encoding(ids: Seq<u32>, mask: Seq<bool>) -> bool {
    &&& ids.len() == MAX_SEQ_LEN
    &&& mask.len() == MAX_SEQ_LEN
    &&& forall|i: int| 0 <= i < ids.len() ==> #[trigger] ids[i] < VOCAB_SIZE
    &&& exists|tokens: int| marks_tokens(ids, mask, tokens)
}

/// Pick the documents that a tokenizer is trained on and cut each short.
pub fn sample_corpus(corpus: &Vec<String>) -> (r: Vec<String>)
    ensures
        text_views(r@) == training_texts(text_views(corpus@)),
{
    let total = corpus.len();
    let (count, step): (usize, usize) = if total > MAX_TOKENIZER_DOCS {
        (MAX_TOKENIZER_DOCS, total / MAX_TOKENIZER_DOCS)
    } else {
        (total, 1)
    };
    proof {
        lemma_sample_fits(total as nat);
    }
    let ghost texts = text_views(corpus@);
    let mut out: Vec<String> = Vec::new();
    let mut i: usize = 0;
    while i < count
        invariant
            i <= count,
            texts == text_views(corpus@),
            count == sample_size(corpus@.len()),
            step == sample_step(corpus@.len()),
            total == corpus@.len(),
            step >= 1,
            count * step <= total,
            out@.len() == i,
            forall|j: int|
                0 <= j < i ==> (#[trigger] out@[j])@ == shortened(
                    texts[j * sample_step(texts.len())],
                ),
        decreases count - i,
    {
        assert(i * step < count * step && i * step >= 0) by (nonlinear_arith)
            requires
                i < count,
                step >= 1,
        ;
        let text = take_chars(corpus[i * step].as_str(), MAX_DOC_CHARS);
        assert(text@ == shortened(texts[i * sample_step(texts.len())]));
        out.push(text);
        i += 1;
    }
    assert(text_views(out@) =~= training_texts(texts));
    out
}

/// Train a byte-pair-encoding tokenizer on a corpus, which every corpus allows.
pub fn train_tokenizer(corpus: &Vec<String>) -> (r: Result<Tokenizer, TokenizerError>)
    ensures
        match r {
            Ok(tokenizer) => is_legal_tokenizer(tokenizer) && crate::bpe::trained_on(
                tokenizer,
                VOCAB_SIZE as nat,
                special_tokens(),
                training_texts(text_views(corpus@)),
            ),
            Err(_) => false,
        },
{
    let texts = sample_corpus(corpus);
    proof {
        assert(texts@.len() == text_views(texts@).len());
        assert forall|i: int| 0 <= i < texts@.len() implies (#[trigger] texts@[i])@.len()
            <= MAX_DOC_CHARS by {
            assert(texts@[i]@ == text_views(texts@)[i]);
            assert(text_views(texts@)[i] == training_texts(text_views(corpus@))[i]);
        }
        reveal_strlit("[PAD]");
        reveal_strlit("[UNK]");
    }
    let mut specials: Vec<String> = Vec::new();
    specials.push(PAD_TOKEN.to_owned());
    specials.push(UNK_TOKEN.to_owned());
    let trainer = bpe_trainer(VOCAB_SIZE, &specials);
    proof {
        assert(text_views(specials@) =~= special_tokens());
        assert(special_tokens()[0].len() > 0 && special_tokens()[1].len() > 0);
        assert(PAD_TOKEN@[1] != UNK_TOKEN@[1]);
    }
    match trained_tokenizer(trainer, MAX_SEQ_LEN, PAD_ID, PAD_TOKEN, &texts) {
        Ok(tokenizer) => Ok(tokenizer),
        Err(error) => Err(TokenizerError::Training(error)),
    }
}

/// Whether a JSON text is that of a tokenizer.
pub open spec fn is_stored_tokenizer(json: Seq<char>) -> bool {
    crate::json::value_of(json) matches Some(value) && crate::stored::is_readable(value)
        && crate::bpe::describes_tokenizer(value)
}

/// Whether a tokenizer is one that a JSON text describes. It can be applied to every
/// text where the JSON names no parts but those that can.
pub open spec fn is_loaded_from(tokenizer: Tokenizer, json: Seq<char>) -> bool {
    crate::json::value_of(json) matches Some(value) && crate::bpe::read_from(tokenizer, value) && (
    crate::stored::has_known_parts(value) ==> crate::bpe::tokenizer_state(tokenizer).applies)
}

/// Read a tokenizer that was trained before.
pub fn load_tokenizer(json: &str) -> (r: Result<Tokenizer, TokenizerError>)
    ensures
        match r {
            Ok(tokenizer) => is_stored_tokenizer(json@) && is_loaded_from(tokenizer, json@),
            Err(error) => error is Loading && !is_stored_tokenizer(json@),
        },
{
    let value = match parse_value(json) {
        Ok(value) => value,
        Err(_) => return Err(TokenizerError::Loading("the text is not JSON".to_owned())),
    };
    if !can_be_read(&value) {
        return Err(
            TokenizerError::Loading("a part of the tokenizer cannot be read".to_owned()),
        );
    }
    match read_tokenizer(value) {
        Ok(tokenizer) => Ok(tokenizer),
        Err(error) => Err(TokenizerError::Loading(error)),
    }
}

/// Write a tokenizer that was trained as text that [`load_tokenizer`] reads, as one
/// that encodes every text in the same way.
pub fn save_tokenizer(tokenizer: &Tokenizer) -> (r: Result<String, TokenizerError>)
    requires
        is_legal_tokenizer(*tokenizer),
    ensures
        match r {
            Ok(json) => json@ == crate::bpe::json_of(*tokenizer, true) && crate::bpe::restores(
                json@,
                *tokenizer,
            ),
            Err(_) => false,
        },
{
    match write_json(tokenizer, true) {
        Ok(json) => Ok(json),
        Err(error) => Err(TokenizerError::Saving(error)),
    }
}

/// What is written of a tokenizer that was trained can be loaded, and the tokenizer
/// that is loaded is like the one that was written: it encodes every text, and each
/// in the same way.
pub proof fn law_stored_tokenizer_is_restored(
    tokenizer: Tokenizer,
    json: Seq<char>,
    back: Tokenizer,
    text: Seq<char>,
)
    requires
        is_legal_tokenizer(tokenizer),
        crate::bpe::restores(json, tokenizer),
    ensures
        is_stored_tokenizer(json),
        is_loaded_from(back, json) ==> is_legal_tokenizer(back) && encoded(back, text) == encoded(
            tokenizer,
            text,
        ),
{
}

/// Load the stored tokenizer where there is one, or train one on the corpus.
pub fn get_tokenizer(stored: Option<&str>, corpus: &Vec<String>) -> (r: Result<
    Tokenizer,
    TokenizerError,
>)
    ensures
        match stored {
            Some(json) => match r {
                Ok(tokenizer) => is_stored_tokenizer(json@) && is_loaded_from(tokenizer, json@),
                Err(error) => error is Loading && !is_stored_tokenizer(json@),
            },
            None => match r {
                Ok(tokenizer) => is_legal_tokenizer(tokenizer) && crate::bpe::trained_on(
                    tokenizer,
                    VOCAB_SIZE as nat,
                    special_tokens(),
                    training_texts(text_views(corpus@)),
                ),
                Err(_) => false,
            },
        },
{
    match stored {
        Some(json) => load_tokenizer(json),
        None => train_tokenizer(corpus),
    }
}

/// Turn ids and an attention mask into ids and a mask of flags.
pub fn encoding_parts(ids: Vec<u32>, attention: &Vec<u32>) -> (r: (Vec<u32>, Vec<bool>))
    ensures
        r.0@ == ids@,
        r.1@ == mask_of(attention@),
        r.1@.len() == attention@.len(),
        forall|i: int| 0 <= i < attention@.len() ==> #[trigger] r.1@[i] == (attention@[i] == 1),
{
    let mut mask: Vec<bool> = Vec::new();
    let mut i: usize = 0;
    while i < attention.len()
        invariant
            i <= attention@.len(),
            mask@ == mask_of(attention@).take(i as int),
        decreases attention@.len() - i,
    {
        mask.push(attention[i] == 1);
        i += 1;
        assert(mask@ =~= mask_of(attention@).take(i as int));
    }
    assert(mask@ =~= mask_of(attention@));
    (ids, mask)
}

/// Whether a tokenizer can truncate every text.
pub fn has_sound_truncation(tokenizer: &Tokenizer) -> (r: bool)
    ensures
        r == crate::bpe::truncation_is_sound(crate::bpe::tokenizer_state(*tokenizer)),
{
    let added = added_tokens_of(tokenizer);
    match truncation_of(tokenizer) {
        Some((max_length, stride)) => added == max_length || (added < max_length && stride
            < max_length - added),
        None => true,
    }
}

/// Whether a tokenizer leaves merges out at random.
fn is_random(tokenizer: &Tokenizer) -> (r: bool)
    ensures
        r == crate::bpe::tokenizer_state(*tokenizer).random,
{
    match dropout_bits(tokenizer) {
        Some(bits) => bits != 0 && bits != 0x8000_0000,
        None => false,
    }
}

/// Whether a text has no more tokens, whatever merges are left out, than there is room
/// for.
fn fits(tokenizer: &Tokenizer, text: &str, room: usize) -> (r: bool)
    requires
        crate::bpe::tokenizer_state(*tokenizer).applies,
    ensures
        r == crate::bpe::fits_into(*tokenizer, text@, room as int),
{
    if is_random(tokenizer) {
        return match count_unmerged(tokenizer, text) {
            Some(tokens) => tokens <= room,
            None => false,
        };
    }
    let bare = bare_tokenizer(tokenizer);
    match encode_text(&bare, text, true) {
        Ok((ids, _)) => ids.len() <= room,
        Err(_) => true,
    }
}

/// Whether a tokenizer can truncate a text, or need not.
pub fn can_truncate(tokenizer: &Tokenizer, text: &str) -> (r: bool)
    requires
        crate::bpe::tokenizer_state(*tokenizer).applies,
    ensures
        r == crate::bpe::truncates_soundly(*tokenizer, text@),
{
    if has_sound_truncation(tokenizer) {
        return true;
    }
    let added = added_tokens_of(tokenizer);
    match truncation_of(tokenizer) {
        Some((max_length, _)) => added < max_length && fits(tokenizer, text, max_length - added),
        None => true,
    }
}

/// Tokenize a text: its token ids, and a mask of which of them count. A tokenizer
/// trained here encodes every text, and both have the length [`MAX_SEQ_LEN`].
pub fn encode(tokenizer: &Tokenizer, text: &str) -> (r: Result<
    (Vec<u32>, Vec<bool>),
    TokenizerError,
>)
    requires
        crate::bpe::tokenizer_state(*tokenizer).applies,
    ensures
        (r matches Err(error) && error is UnsoundTruncation)
            <==> !crate::bpe::truncates_soundly(*tokenizer, text@),
        r matches Err(error) ==> error is UnsoundTruncation || error is Encoding,
        crate::bpe::truncates_soundly(*tokenizer, text@)
            && !crate::bpe::tokenizer_state(*tokenizer).random ==> match r {
            Ok((ids, mask)) => encoded(*tokenizer, text@) == Some((ids@, mask@)),
            Err(error) => error is Encoding && encoded(*tokenizer, text@) is None,
        },
        forall|length: nat, pad_id: u32| #[trigger]
            fits_texts(*tokenizer, length, pad_id) ==> (r matches Ok((ids, mask))
                ==> is_fitted_text(*tokenizer, text@, length, pad_id, ids@, mask@)),
        is_legal_tokenizer(*tokenizer) ==> match r {
            Ok((ids, mask)) => is_fixed_encoding(ids@, mask@),
            Err(_) => false,
        },
{
    if !can_truncate(tokenizer, text) {
        return Err(TokenizerError::UnsoundTruncation);
    }
    match encode_text(tokenizer, text, true) {
        Ok((ids, attention)) => {
            proof {
                if is_legal_tokenizer(*tokenizer) {
                    let state = crate::bpe::tokenizer_state(*tokenizer);
                    assert(crate::bpe::has_fixed_length(state, MAX_SEQ_LEN as nat, PAD_ID));
                    lemma_padded_is_fixed(ids@, attention@, state.id_bound);
                }
                let bare = crate::bpe::encoding_of(crate::bpe::bare_of(*tokenizer), text@, true);
                assert forall|length: nat, pad_id: u32| #[trigger]
                    fits_texts(*tokenizer, length, pad_id) implies is_fitted_text(
                    *tokenizer,
                    text@,
                    length,
                    pad_id,
                    ids@,
                    mask_of(attention@),
                ) by {
                    let state = crate::bpe::tokenizer_state(*tokenizer);
                    assert(crate::bpe::has_fixed_length(state, length, pad_id));
                    if let Some((tokens, _)) = bare {
                        assert(mask_of(attention@) =~= fitted_mask(tokens, length));
                    }
                }
            }
            Ok(encoding_parts(ids, &attention))
        },
        Err(error) => Err(TokenizerError::Encoding(error)),
    }
}

proof fn lemma_padded_is_fixed(ids: Seq<u32>, attention: Seq<u32>, id_bound: nat)
    requires
        crate::bpe::is_padded(ids, attention, MAX_SEQ_LEN as nat, PAD_ID, id_bound),
        id_bound <= VOCAB_SIZE,
    ensures
        is_fixed_encoding(ids, mask_of(attention)),
{
    let tokens = choose|tokens: int|
        crate::bpe::is_padded_after(ids, attention, tokens, PAD_ID, id_bound);
    let mask = mask_of(attention);
    assert forall|i: int| 0 <= i < mask.len() implies #[trigger] mask[i] == (i < tokens) by {
        assert(mask[i] == (attention[i] == 1));
    }
    assert(marks_tokens(ids, mask, tokens));
}

proof fn lemma_sample_fits(documents: nat)
    ensures
        sample_step(documents) >= 1,
        sample_size(documents) * sample_step(documents) <= documents,
{
    if documents > MAX_TOKENIZER_DOCS {
        assert(2_000 * (documents / 2_000) <= documents);
    }
}

/// A tokenizer is trained on the first thousand characters of each document of a corpus
/// of two thousand documents at most. Of a larger corpus it is two thousand documents,
/// each as far behind the one before it as a two-thousandth of the corpus, rounded down.
pub proof fn law_training_sees_all_of_the_corpus(corpus: Seq<Seq<char>>, i: int)
    requires
        0 <= i < training_texts(corpus).len(),
    ensures
        ({
            let at = if corpus.len() <= 2_000 {
                i
            } else {
                i * (corpus.len() as int / 2_000)
            };
            let doc = corpus[at];
            &&& training_texts(corpus).len() == if corpus.len() <= 2_000 {
                corpus.len() as int
            } else {
                2_000
            }
            &&& 0 <= at < corpus.len()
            &&& doc.len() <= 1_000 ==> training_texts(corpus)[i] == doc
            &&& doc.len() > 1_000 ==> training_texts(corpus)[i] == doc.subrange(0, 1_000)
        }),
{
    law_sample_is_even(corpus, i);
}

/// A tokenizer trained here cuts a text to its first 128 tokens and fills it up to as
/// many with `[PAD]`, which has the id zero; it knows `[PAD]` and `[UNK]`, has fewer ids
/// than the embedding table has rows, and works on the bytes of composed characters.
pub proof fn law_trained_tokenizer_has_its_settings(tokenizer: Tokenizer)
    requires
        is_legal_tokenizer(tokenizer),
    ensures
        ({
            let state = crate::bpe::tokenizer_state(tokenizer);
            &&& state.applies && state.trained && state.nfc && state.byte_level && !state.random
            &&& state.no_post_processor && state.added_tokens == 0
            &&& match state.truncation {
                Some(truncation) => truncation.max_length == 128 && truncation.stride == 0
                    && truncation.keeps_front,
                None => false,
            }
            &&& match state.padding {
                Some(padding) => padding.length == 128 && padding.pad_id == 0 && padding.pad_token
                    == "[PAD]"@,
                None => false,
            }
            &&& state.special_tokens.len() == 2
            &&& state.special_tokens[0] == "[PAD]"@
            &&& state.special_tokens[1] == "[UNK]"@
            &&& state.id_bound <= 32_000
        }),
{
}

/// A tokenizer that brings texts to a length gives a text its first tokens, up to that
/// length, and the padding id for what is left; the mask marks the tokens and nothing
/// else.
pub proof fn law_fitted_text_is_its_front_and_padding(
    tokenizer: Tokenizer,
    text: Seq<char>,
    length: nat,
    pad_id: u32,
    ids: Seq<u32>,
    mask: Seq<bool>,
    i: int,
)
    requires
        is_fitted_text(tokenizer, text, length, pad_id, ids, mask),
    ensures
        match crate::bpe::encoding_of(crate::bpe::bare_of(tokenizer), text, true) {
            Some((tokens, _)) => {
                &&& ids.len() == length
                &&& mask.len() == length
                &&& 0 <= i < length && i < tokens.len() ==> ids[i] == tokens[i] && mask[i]
                &&& 0 <= i < length && i >= tokens.len() ==> ids[i] == pad_id && !mask[i]
            },
            None => false,
        },
{
}

/// A text is that of a stored tokenizer exactly where it is JSON, can be read, and
/// describes a tokenizer; and what is loaded from it is a tokenizer that it describes.
pub proof fn law_stored_tokenizer_is_what_is_described(json: Seq<char>, tokenizer: Tokenizer)
    ensures
        match crate::json::value_of(json) {
            Some(value) => {
                &&& is_stored_tokenizer(json) <==> crate::stored::is_readable(value)
                    && crate::bpe::describes_tokenizer(value)
                &&& is_loaded_from(tokenizer, json) ==> crate::bpe::read_from(tokenizer, value)
                &&& is_loaded_from(tokenizer, json) && crate::stored::has_known_parts(value)
                    ==> crate::bpe::tokenizer_state(tokenizer).applies
            },
            None => !is_stored_tokenizer(json) && !is_loaded_from(tokenizer, json),
        },
{
}

/// Truncation is sound exactly where there is none, where the added tokens fill the
/// length, or where they leave more room than the pieces overlap by.
pub proof fn law_truncation_is_sound_where_there_is_room(state: crate::bpe::TokenizerState)
    ensures
        crate::bpe::truncation_is_sound(state) <==> match state.truncation {
            Some(truncation) => {
                let room = truncation.max_length - state.added_tokens;
                room == 0 || truncation.stride < room
            },
            None => true,
        },
{
}

/// A text can be truncated where the tokenizer does not truncate, or truncates to more
/// tokens beside the added ones than its pieces overlap by, or where the added ones
/// fill the length.
pub proof fn law_sound_truncation_takes_every_text(tokenizer: Tokenizer, text: Seq<char>)
    requires
        match crate::bpe::tokenizer_state(tokenizer).truncation {
            Some(truncation) => {
                let room = truncation.max_length - crate::bpe::tokenizer_state(
                    tokenizer,
                ).added_tokens;
                room == 0 || truncation.stride < room
            },
            None => true,
        },
    ensures
        crate::bpe::truncates_soundly(tokenizer, text),
{
}

/// With any other truncation a text can be truncated exactly where it need not be: all
/// the tokens that it can have fit beside the added ones.
pub proof fn law_unsound_truncation_takes_what_fits(
    tokenizer: Tokenizer,
    text: Seq<char>,
    truncation: crate::bpe::TruncationState,
)
    requires
        crate::bpe::tokenizer_state(tokenizer).truncation == Some(truncation),
        truncation.max_length != crate::bpe::tokenizer_state(tokenizer).added_tokens,
        truncation.stride >= truncation.max_length - crate::bpe::tokenizer_state(
            tokenizer,
        ).added_tokens,
    ensures
        crate::bpe::truncates_soundly(tokenizer, text) <==> {
            let room = truncation.max_length - crate::bpe::tokenizer_state(tokenizer).added_tokens;
            room > 0 && if crate::bpe::tokenizer_state(tokenizer).random {
                match crate::bpe::unmerged_tokens(tokenizer, text) {
                    Some(tokens) => tokens <= room,
                    None => false,
                }
            } else {
                match crate::bpe::encoding_of(crate::bpe::bare_of(tokenizer), text, true) {
                    Some((ids, _)) => ids.len() <= room,
                    None => true,
                }
            }
        },
{
}

/// The documents that a tokenizer is trained on come from the corpus in order, at
/// even distances, and there are as many of them as the corpus has, up to the
/// most that training takes.
pub proof fn law_sample_is_even(corpus: Seq<Seq<char>>, i: int)
    requires
        0 <= i < training_texts(corpus).len(),
    ensures
        training_texts(corpus).len() == if corpus.len() < MAX_TOKENIZER_DOCS {
            corpus.len() as int
        } else {
            MAX_TOKENIZER_DOCS as int
        },
        sample_step(corpus.len()) >= 1,
        0 <= i * sample_step(corpus.len()) < corpus.len(),
        training_texts(corpus)[i] == shortened(corpus[i * sample_step(corpus.len())]),
        training_texts(corpus)[i].len() <= MAX_DOC_CHARS,
{
    lemma_sample_fits(corpus.len());
    let step = sample_step(corpus.len()) as int;
    let size = sample_size(corpus.len()) as int;
    assert(i * step < size * step && i * step >= 0) by (nonlinear_arith)
        requires
            0 <= i < size,
            step >= 1,
    ;
}

} // verus!
