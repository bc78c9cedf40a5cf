//! The boundary to the `tokenizers` crate: what the library relies on of its
//! byte-pair-encoding tokenizer.
//!
//! A tokenizer is opaque here. [`tokenizer_state`] names the settings of one that
//! the contracts speak of; each function below says what one call of the crate
//! does to them or returns.

use vstd::prelude::*;

use serde_json::Value;
use tokenizers::models::bpe::{BpeTrainer, BPE};
use tokenizers::models::{ModelWrapper, TrainerWrapper};
use tokenizers::normalizers::unicode::NFC;
use tokenizers::normalizers::Precompiled;
use tokenizers::pre_tokenizers::byte_level::ByteLevel;
use tokenizers::{
    AddedToken, PaddingParams, PaddingStrategy, PostProcessor, PostProcessorWrapper, Tokenizer,
    TruncationParams,
};

use crate::data::text_views;

verus! {

/// The most documents that a tokenizer is trained on.
pub const MAX_TOKENIZER_DOCS: usize = 2_000;

/// The most characters of a document that a tokenizer is trained on.
pub const MAX_DOC_CHARS: usize = 1_000;

/// The largest vocabulary that a trainer is asked for.
pub const MAX_VOCAB_SIZE: usize = 1_000_000;

#[verifier::external_type_specification]
#[verifier::external_body]
pub struct ExTokenizer(tokenizers::Tokenizer);

#[verifier::external_type_specification]
#[verifier::external_body]
pub struct ExTrainerWrapper(tokenizers::models::TrainerWrapper);

/// How a tokenizer cuts a text down: to `max_length` tokens, in pieces that
/// overlap by `stride`. `keeps_front` says that a text on its own is cut, and that
/// it is its front that stays.
pub struct TruncationState {
    pub max_length: nat,
    pub stride: nat,
    pub keeps_front: bool,
}

/// How a tokenizer fills a text up: with `pad_id`, which stands for `pad_token`,
/// behind the text, to exactly `length` tokens.
pub struct PaddingState {
    pub length: nat,
    pub pad_id: u32,
    pub pad_token: Seq<char>,
}

/// The settings of a tokenizer.
pub struct TokenizerState {
    /// Its parts can be applied to every text: none of them panics on one or goes on
    /// for ever, as far as truncation does not. The words that its model remembers are
    /// those that the model itself has split.
    pub applies: bool,
    /// Its model is a byte-pair encoding without dropout, without an unknown token
    /// and without a prefix or a suffix for parts of words. It has no tokens beside
    /// those of the model, and the special ones are matched as they stand wherever
    /// they stand.
    pub plain_model: bool,
    /// Its normalizer is Unicode NFC.
    pub nfc: bool,
    /// Its pre-tokenizer is the byte-level one.
    pub byte_level: bool,
    /// Its model is one that training gave, in this process or before it was stored,
    /// and nothing was encoded before that training.
    pub trained: bool,
    /// Its model is a byte-pair encoding with a dropout other than zero, which leaves
    /// merges out at random.
    pub random: bool,
    /// The special tokens with the ids from zero on, in order.
    pub special_tokens: Seq<Seq<char>>,
    /// No token has this id or a larger one.
    pub id_bound: nat,
    /// It has no post-processor.
    pub no_post_processor: bool,
    /// It has no decoder.
    pub no_decoder: bool,
    /// How many tokens its post-processor adds to a single text.
    pub added_tokens: nat,
    /// How it truncates, if it does.
    pub truncation: Option<TruncationState>,
    /// How it pads, if it pads on the right to a fixed length, without rounding
    /// that length up.
    pub padding: Option<PaddingState>,
}

/// The settings of a tokenizer.
pub uninterp spec fn tokenizer_state(tokenizer: tokenizers::Tokenizer) -> TokenizerState;

/// The settings of a trainer.
pub struct TrainerState {
    /// It trains byte-pair encodings, with the settings that a builder starts with for
    /// everything but the two below, and matches special tokens as they stand.
    pub plain: bool,
    /// The size of the vocabulary that it aims at.
    pub vocab_size: nat,
    /// The special tokens that it puts first into the vocabulary.
    pub special_tokens: Seq<Seq<char>>,
}

/// The settings of a trainer.
pub uninterp spec fn trainer_state(trainer: tokenizers::models::TrainerWrapper) -> TrainerState;

/// Whether a tokenizer's model is one that training with a vocabulary size and
/// special tokens on a list of texts can give. Training breaks ties by the order
/// in which hash maps are walked, so there may be several.
pub uninterp spec fn trained_on(
    tokenizer: tokenizers::Tokenizer,
    vocab_size: nat,
    special_tokens: Seq<Seq<char>>,
    texts: Seq<Seq<char>>,
) -> bool;

/// The ids and the attention mask that a tokenizer without randomness gives a
/// text, if it can encode it.
pub uninterp spec fn encoding_of(
    tokenizer: tokenizers::Tokenizer,
    text: Seq<char>,
    add_special_tokens: bool,
) -> Option<(Seq<u32>, Seq<u32>)>;

/// A tokenizer without its truncation, its padding and its post-processor.
pub uninterp spec fn bare_of(tokenizer: tokenizers::Tokenizer) -> tokenizers::Tokenizer;

/// How many tokens a text has at most where merges are left out at random: as many as
/// without any merge, if the text can be encoded in that way.
pub uninterp spec fn unmerged_tokens(
    tokenizer: tokenizers::Tokenizer,
    text: Seq<char>,
) -> Option<nat>;

/// The JSON text of a trained tokenizer.
pub uninterp spec fn json_of(tokenizer: tokenizers::Tokenizer, pretty: bool) -> Seq<char>;

/// Whether a JSON value describes a tokenizer.
pub uninterp spec fn describes_tokenizer(value: serde_json::Value) -> bool;

/// Whether a JSON value describes a precompiled character map.
pub uninterp spec fn holds_character_map(value: serde_json::Value) -> bool;

/// Whether a tokenizer is one that reading a JSON value can give. Where two tokens
/// of the vocabulary have one id, which of them the id stands for depends on the
/// order in which a hash map is walked, so there may be several.
pub uninterp spec fn read_from(
    tokenizer: tokenizers::Tokenizer,
    value: serde_json::Value,
) -> bool;

/// Whether truncating with these settings stays inside what the crate allows:
/// something is left of the length beside the added tokens, and the pieces
/// overlap by less than that.
pub open spec fn truncation_is_sound(state: TokenizerState) -> bool {
    match state.truncation {
        Some(truncation) => {
            &&& state.added_tokens <= truncation.max_length
            &&& (state.added_tokens == truncation.max_length || truncation.stride
                < truncation.max_length - state.added_tokens)
        },
        None => true,
    }
}

/// Whether a text has no more tokens, whatever merges are left out, than there is room
/// for.
pub open spec fn fits_into(tokenizer: Tokenizer, text: Seq<char>, room: int) -> bool {
    if tokenizer_state(tokenizer).random {
        match unmerged_tokens(tokenizer, text) {
            Some(tokens) => tokens <= room,
            None => false,
        }
    } else {
        match encoding_of(bare_of(tokenizer), text, true) {
            Some((ids, _)) => ids.len() <= room,
            None => true,
        }
    }
}

/// Whether a text can be truncated: the settings are sound, or the text has no more
/// tokens than they leave room for, so that they are not used.
pub open spec fn truncates_soundly(tokenizer: Tokenizer, text: Seq<char>) -> bool {
    let state = tokenizer_state(tokenizer);
    ||| truncation_is_sound(state)
    ||| state.truncation matches Some(truncation) && state.added_tokens < truncation.max_length
        && fits_into(tokenizer, text, truncation.max_length - state.added_tokens)
}

/// Whether truncating stays inside what the crate allows where the post-processor
/// is not to add its tokens.
pub open spec fn bare_truncation_is_sound(state: TokenizerState) -> bool {
    match state.truncation {
        Some(truncation) => truncation.max_length == 0 || truncation.stride < truncation.max_length,
        None => true,
    }
}

/// Whether a tokenizer gives every text the same number of tokens: it truncates
/// to `length`, keeping the front, and pads to `length` with `pad_id`.
pub open spec fn has_fixed_length(state: TokenizerState, length: nat, pad_id: u32) -> bool {
    &&& state.no_post_processor
    &&& state.added_tokens == 0
    &&& state.truncation == Some(
        TruncationState { max_length: length, stride: 0, keeps_front: true },
    )
    &&& state.padding matches Some(padding) && padding.length == length && padding.pad_id == pad_id
}

/// Whether settings are those of a tokenizer that was set up and trained: the model is
/// a trained one, the special tokens come first, and no more ids are given out than
/// the vocabulary asked for, or the bytes and the special tokens need.
pub open spec fn is_trained_state(
    state: TokenizerState,
    aim: TrainerState,
    length: nat,
    pad_id: u32,
    pad_token: Seq<char>,
) -> bool {
    &&& state == (TokenizerState {
        applies: true,
        plain_model: true,
        nfc: true,
        byte_level: true,
        trained: true,
        random: false,
        special_tokens: aim.special_tokens,
        id_bound: state.id_bound,
        no_post_processor: true,
        no_decoder: true,
        added_tokens: 0,
        truncation: Some(TruncationState { max_length: length, stride: 0, keeps_front: true }),
        padding: Some(PaddingState { length, pad_id, pad_token }),
    })
    &&& state.id_bound <= aim.vocab_size || state.id_bound <= 256 + aim.special_tokens.len()
}

/// Whether a tokenizer has the parts that training needs and gives.
pub open spec fn has_trained_parts(state: TokenizerState) -> bool {
    state.applies && state.plain_model && state.nfc && state.byte_level && state.trained
        && state.no_post_processor && state.no_decoder
}

/// Tokens cut to a length, or filled up to it with padding behind them.
pub open spec fn fitted(tokens: Seq<u32>, length: nat, pad_id: u32) -> Seq<u32> {
    Seq::new(length, |i: int| if i < tokens.len() { tokens[i] } else { pad_id })
}

/// The attention mask of tokens cut to a length, or filled up to it: ones for the
/// tokens, zeros for the padding.
pub open spec fn fitted_attention(tokens: Seq<u32>, length: nat) -> Seq<u32> {
    Seq::new(length, |i: int| if i < tokens.len() { 1 } else { 0 })
}

/// Whether ids and an attention mask are those of tokens brought to a length, and are
/// missing where there are no tokens.
pub open spec fn is_fitted(
    encoding: Option<(Seq<u32>, Seq<u32>)>,
    bare: Option<(Seq<u32>, Seq<u32>)>,
    length: nat,
    pad_id: u32,
) -> bool {
    match bare {
        Some((tokens, _)) => encoding == Some(
            (fitted(tokens, length, pad_id), fitted_attention(tokens, length)),
        ),
        None => encoding is None,
    }
}

/// Whether ids and an attention mask hold a number of tokens, marked by ones, and
/// padding behind them, marked by zeros.
pub open spec fn is_padded_after(
    ids: Seq<u32>,
    attention: Seq<u32>,
    tokens: int,
    pad_id: u32,
    id_bound: nat,
) -> bool {
    &&& 0 <= tokens <= ids.len()
    &&& forall|i: int| 0 <= i < tokens ==> #[trigger] attention[i] == 1
    &&& forall|i: int| 0 <= i < tokens ==> #[trigger] ids[i] < id_bound
    &&& forall|i: int| tokens <= i < ids.len() ==> #[trigger] attention[i] == 0
    &&& forall|i: int| tokens <= i < ids.len() ==> #[trigger] ids[i] == pad_id
}

/// Whether ids and an attention mask are those of a text padded to a length.
pub open spec fn is_padded(
    ids: Seq<u32>,
    attention: Seq<u32>,
    length: nat,
    pad_id: u32,
    id_bound: nat,
) -> bool {
    &&& ids.len() == length
    &&& attention.len() == length
    &&& exists|tokens: int| is_padded_after(ids, attention, tokens, pad_id, id_bound)
}

/// `BpeTrainerBuilder`: a byte-pair-encoding trainer with a vocabulary size and
/// special tokens, and with what the builder starts with for the rest.
#[verifier::external_body]
pub(crate) fn bpe_trainer(vocab_size: usize, special_tokens: &Vec<String>) -> (r: TrainerWrapper)
    ensures
        trainer_state(r) == (TrainerState {
            plain: true,
            vocab_size: vocab_size as nat,
            special_tokens: text_views(special_tokens@),
        }),
{
    let tokens = special_tokens.iter().map(|token| AddedToken::from(token.clone(), true)).collect();
    BpeTrainer::builder().vocab_size(vocab_size).special_tokens(tokens).build().into()
}

/// A new tokenizer (`Tokenizer::new` with `BPE::default`), set up and trained.
/// `TokenizerImpl::with_normalizer` gives it `NFC`, `with_pre_tokenizer` the default
/// `ByteLevel`, `with_padding` a fixed length on the right, and `with_truncation` the
/// same length without a stride, from the right, which does not fail where no
/// post-processor adds tokens.
///
/// `TokenizerImpl::train` then normalizes and pre-tokenizes the texts, trains the
/// model on the words, and registers the special tokens, which come first in the
/// vocabulary. Behind them come the characters of the words, of which the
/// byte-level pre-tokenizer knows as many as there are bytes, and then merged
/// tokens until the vocabulary has the size asked for. The bounds on the length and
/// on that size keep what is allocated for them small, and the bound on the texts
/// keeps the trainer's 32-bit counts of pairs in range. Neither the byte-level
/// pre-tokenizer nor a byte-pair-encoding trainer with a byte-pair encoding to
/// train gives an error.
///
/// Left unsaid: which merges are learned.
#[verifier::external_body]
pub(crate) fn trained_tokenizer(
    trainer: TrainerWrapper,
    length: usize,
    pad_id: u32,
    pad_token: &str,
    texts: &Vec<String>,
) -> (r: Result<Tokenizer, String>)
    requires
        length <= crate::stored::MAX_PADDING,
        trainer_state(trainer).plain,
        trainer_state(trainer).vocab_size <= MAX_VOCAB_SIZE,
        trainer_state(trainer).special_tokens.len() > 0,
        trainer_state(trainer).special_tokens.no_duplicates(),
        forall|i: int|
            0 <= i < trainer_state(trainer).special_tokens.len() ==> (#[trigger] trainer_state(
                trainer,
            ).special_tokens[i]).len() > 0,
        texts@.len() <= MAX_TOKENIZER_DOCS,
        forall|i: int| 0 <= i < texts@.len() ==> (#[trigger] texts@[i])@.len() <= MAX_DOC_CHARS,
    ensures
        match r {
            Ok(tokenizer) => {
                &&& trained_on(
                    tokenizer,
                    trainer_state(trainer).vocab_size,
                    trainer_state(trainer).special_tokens,
                    text_views(texts@),
                )
                &&& is_trained_state(
                    tokenizer_state(tokenizer),
                    trainer_state(trainer),
                    length as nat,
                    pad_id,
                    pad_token@,
                )
            },
            Err(_) => false,
        },
{
    let mut trainer = trainer;
    let cut = TruncationParams { max_length: length, ..Default::default() };
    let pad = PaddingParams {
        strategy: PaddingStrategy::Fixed(length),
        pad_id,
        pad_token: pad_token.to_string(),
        ..Default::default()
    };
    let mut tokenizer = Tokenizer::new(BPE::default());
    tokenizer.with_normalizer(Some(NFC)).with_pre_tokenizer(Some(ByteLevel::default()));
    tokenizer.with_padding(Some(pad));
    tokenizer.with_truncation(Some(cut)).map_err(|error| error.to_string())?;
    tokenizer.train(&mut trainer, texts.iter()).map_err(|error| error.to_string())?;
    Ok(tokenizer)
}

/// `TokenizerImpl::get_truncation`: the length and the stride that the tokenizer
/// truncates with.
#[verifier::external_body]
pub(crate) fn truncation_of(tokenizer: &Tokenizer) -> (r: Option<(usize, usize)>)
    ensures
        match (r, tokenizer_state(*tokenizer).truncation) {
            (Some((max_length, stride)), Some(truncation)) => max_length == truncation.max_length
                && stride == truncation.stride,
            (None, None) => true,
            _ => false,
        },
{
    tokenizer.get_truncation().map(|params| (params.max_length, params.stride))
}

/// `PostProcessor::added_tokens` of the tokenizer's post-processor, or zero where
/// it has none.
#[verifier::external_body]
pub(crate) fn added_tokens_of(tokenizer: &Tokenizer) -> (r: usize)
    ensures
        r == tokenizer_state(*tokenizer).added_tokens,
{
    tokenizer.get_post_processor().map_or(0, |processor| processor.added_tokens(false))
}

/// Whether a dropout, given by its bits, leaves any merge out: there is one, and it is
/// neither of the two zeros.
pub open spec fn leaves_merges_out(dropout: Option<u32>) -> bool {
    match dropout {
        Some(bits) => bits != 0 && bits != 0x8000_0000,
        None => false,
    }
}

/// `TokenizerImpl::get_model`: the bits of the model's dropout, if it is a byte-pair
/// encoding with one.
#[verifier::external_body]
pub(crate) fn dropout_bits(tokenizer: &Tokenizer) -> (r: Option<u32>)
    ensures
        leaves_merges_out(r) == tokenizer_state(*tokenizer).random,
{
    match tokenizer.get_model() {
        ModelWrapper::BPE(model) => model.dropout.map(|dropout| dropout.to_bits()),
        ModelWrapper::WordPiece(_) => None,
        ModelWrapper::WordLevel(_) => None,
        ModelWrapper::Unigram(_) => None,
    }
}

/// A copy of a tokenizer (`Clone::clone`) in which `TokenizerImpl::with_truncation`,
/// `with_padding` and `with_post_processor`, each given `None`, have taken these
/// three out. With no truncation to set, the first does not fail. The parts that are
/// left can be applied where all of them could.
#[verifier::external_body]
pub(crate) fn bare_tokenizer(tokenizer: &Tokenizer) -> (r: Tokenizer)
    requires
        tokenizer_state(*tokenizer).applies,
    ensures
        r == bare_of(*tokenizer),
        tokenizer_state(r) == (TokenizerState {
            no_post_processor: true,
            added_tokens: 0,
            truncation: None,
            padding: None,
            ..tokenizer_state(*tokenizer)
        }),
{
    let mut bare = tokenizer.clone();
    let _ = bare.with_truncation(None);
    bare.with_padding(None);
    bare.with_post_processor(None::<PostProcessorWrapper>);
    bare
}

/// The number of ids that `TokenizerImpl::encode` gives a text for a copy of the
/// tokenizer (`Clone::clone`) without truncation, padding and post-processor, in which
/// `with_model` has put a dropout of one, which leaves out every merge, so that chance
/// has no part in it. Each merge that is made takes one token away, so there are never
/// more.
#[verifier::external_body]
pub(crate) fn count_unmerged(tokenizer: &Tokenizer, text: &str) -> (r: Option<usize>)
    requires
        tokenizer_state(*tokenizer).applies,
        tokenizer_state(*tokenizer).random,
    ensures
        match r {
            Some(tokens) => unmerged_tokens(*tokenizer, text@) == Some(tokens as nat),
            None => unmerged_tokens(*tokenizer, text@) is None,
        },
{
    let mut bare = tokenizer.clone();
    let _ = bare.with_truncation(None);
    bare.with_padding(None).with_post_processor(None::<PostProcessorWrapper>);
    let mut model = bare.get_model().clone();
    if let ModelWrapper::BPE(model) = &mut model {
        model.dropout = Some(1u8.into());
    }
    bare.with_model(model);
    bare.encode(text, true).ok().map(|encoding| encoding.get_ids().len())
}

/// `TokenizerImpl::encode` of one text: its ids and its attention mask. Without
/// randomness in the model the two are a function of the tokenizer and the text.
/// A tokenizer of a fixed length cuts the text's tokens to it, and fills it up behind
/// them with padding that the mask leaves out; the tokens are those that the text has
/// without truncation and padding. With the parts of one that [`trained_tokenizer`]
/// has trained, none of them gives an error. Texts are left out on which truncation
/// would panic, and tokenizers with parts that would.
///
/// Left unsaid: which tokens a text has.
#[verifier::external_body]
pub(crate) fn encode_text(
    tokenizer: &Tokenizer,
    text: &str,
    add_special_tokens: bool,
) -> (r: Result<(Vec<u32>, Vec<u32>), String>)
    requires
        tokenizer_state(*tokenizer).applies,
        add_special_tokens ==> truncates_soundly(*tokenizer, text@),
        !add_special_tokens ==> bare_truncation_is_sound(tokenizer_state(*tokenizer)),
    ensures
        !tokenizer_state(*tokenizer).random ==> match r {
            Ok((ids, attention)) => encoding_of(*tokenizer, text@, add_special_tokens) == Some(
                (ids@, attention@),
            ),
            Err(_) => encoding_of(*tokenizer, text@, add_special_tokens) is None,
        },
        forall|length: nat, pad_id: u32|
            #[trigger] has_fixed_length(tokenizer_state(*tokenizer), length, pad_id) && 0 < length
                && !tokenizer_state(*tokenizer).random ==> is_fitted(
                match r {
                    Ok((ids, attention)) => Some((ids@, attention@)),
                    Err(_) => None,
                },
                encoding_of(bare_of(*tokenizer), text@, add_special_tokens),
                length,
                pad_id,
            ),
        forall|length: nat, pad_id: u32|
            #[trigger] has_fixed_length(tokenizer_state(*tokenizer), length, pad_id) && 0 < length
                ==> match r {
                Ok((ids, attention)) => is_padded(
                    ids@,
                    attention@,
                    length,
                    pad_id,
                    tokenizer_state(*tokenizer).id_bound,
                ),
                Err(_) => !has_trained_parts(tokenizer_state(*tokenizer)),
            },
{
    match tokenizer.encode(text, add_special_tokens) {
        Ok(encoding) => Ok((encoding.get_ids().to_vec(), encoding.get_attention_mask().to_vec())),
        Err(error) => Err(error.to_string()),
    }
}

/// Whether what a JSON text describes is read back as a tokenizer with the same
/// settings that encodes every text in the same way.
pub open spec fn restores(json: Seq<char>, tokenizer: Tokenizer) -> bool {
    &&& crate::json::value_of(json) matches Some(value)
    &&& crate::stored::is_readable(value)
    &&& describes_tokenizer(value)
    &&& forall|back: Tokenizer| #[trigger]
        read_from(back, value) ==> {
            &&& tokenizer_state(back) == tokenizer_state(tokenizer)
            &&& forall|text: Seq<char>, add_special_tokens: bool| #[trigger]
                encoding_of(back, text, add_special_tokens) == encoding_of(
                    tokenizer,
                    text,
                    add_special_tokens,
                )
        }
}

/// `TokenizerImpl::to_string`: a trained tokenizer as JSON, which does not fail.
/// The JSON holds the vocabulary and the merges in their order, the special tokens
/// and the settings, so the tokenizer that is read back has the same settings and
/// encodes every text in the same way. The vocabulary is written id by id, up to
/// one behind the largest, which the bound on the ids leaves room for.
#[verifier::external_body]
pub(crate) fn write_json(tokenizer: &Tokenizer, pretty: bool) -> (r: Result<String, String>)
    requires
        has_trained_parts(tokenizer_state(*tokenizer)),
        tokenizer_state(*tokenizer).id_bound <= u32::MAX,
    ensures
        match r {
            Ok(json) => json@ == json_of(*tokenizer, pretty) && restores(json@, *tokenizer),
            Err(_) => false,
        },
{
    tokenizer.to_string(pretty).map_err(|error| error.to_string())
}

/// `serde_json::from_str`, given the text of a JSON value, into a `Precompiled`:
/// whether the value describes a precompiled character map. The bound on the map keeps
/// what is allocated for it ahead of time small.
#[verifier::external_body]
pub(crate) fn is_character_map(value: &Value) -> (r: bool)
    requires
        crate::stored::map_is_small(*value),
    ensures
        r == holds_character_map(*value),
{
    serde_json::from_str::<Precompiled>(&value.to_string()).is_ok()
}

/// `serde_json::from_value` into a `Tokenizer`: the tokenizer that a JSON value
/// describes, or an error where it describes none. Values are left out that are
/// read with a panic, and those that no text holds, which may be nested too deeply.
/// Where a value has no parts but those that are applied to every text, so has the
/// tokenizer.
#[verifier::external_body]
pub(crate) fn read_tokenizer(value: Value) -> (r: Result<Tokenizer, String>)
    requires
        exists|json: Seq<char>| #[trigger] crate::json::value_of(json) == Some(value),
        crate::stored::is_readable(value),
    ensures
        match r {
            Ok(tokenizer) => {
                &&& describes_tokenizer(value)
                &&& read_from(tokenizer, value)
                &&& crate::stored::has_known_parts(value) ==> tokenizer_state(tokenizer).applies
            },
            Err(_) => !describes_tokenizer(value),
        },
{
    serde_json::from_value(value).map_err(|error| error.to_string())
}

} // verus!
