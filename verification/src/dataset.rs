//! Tokenized pairs and the flat batches that a model takes.
//!
//! A batch lists the tokens of its texts one text after the other, each with the
//! same number of tokens, so that it can be read as a matrix of rows.

use std::sync::Arc;

use vstd::prelude::*;

use tokenizers::Tokenizer;

use crate::data::TextPair;
use crate::tokenize::{encode, TokenizerError, MAX_SEQ_LEN};

verus! {

/// A pair with both texts tokenized, ready for batching.
#[derive(Debug, Clone)]
pub struct TokenizedPair {
    pub anchor_ids: Vec<u32>,
    pub anchor_mask: Vec<bool>,
    pub positive_ids: Vec<u32>,
    pub positive_mask: Vec<bool>,
}

impl TokenizedPair {
    /// Whether both texts have the common number of tokens.
    pub open spec fn has_common_length(&self) -> bool {
        &&& self.anchor_ids@.len() == MAX_SEQ_LEN
        &&& self.anchor_mask@.len() == MAX_SEQ_LEN
        &&& self.positive_ids@.len() == MAX_SEQ_LEN
        &&& self.positive_mask@.len() == MAX_SEQ_LEN
    }

    /// Check that both texts have the common number of tokens.
    pub fn is_common_length(&self) -> (r: bool)
        ensures
            r == self.has_common_length(),
    {
        self.anchor_ids.len() == MAX_SEQ_LEN && self.anchor_mask.len() == MAX_SEQ_LEN
            && self.positive_ids.len() == MAX_SEQ_LEN && self.positive_mask.len() == MAX_SEQ_LEN
    }
}

/// An item can be batched exactly where its four lists have 128 entries each, whatever
/// these are.
pub proof fn law_items_are_batched_by_their_length(item: TokenizedPair)
    ensures
        item.has_common_length() <==> item.anchor_ids@.len() == 128 && item.anchor_mask@.len()
            == 128 && item.positive_ids@.len() == 128 && item.positive_mask@.len() == 128,
{
}

/// Whether ids and a mask are what a tokenizer gives a text.
pub open spec fn encodes_to(
    tokenizer: Tokenizer,
    text: Seq<char>,
    ids: Seq<u32>,
    mask: Seq<bool>,
) -> bool {
    let state = crate::bpe::tokenizer_state(tokenizer);
    &&& crate::bpe::truncates_soundly(tokenizer, text)
    &&& !state.random ==> crate::tokenize::encoded(tokenizer, text) == Some((ids, mask))
    &&& forall|length: nat, pad_id: u32| #[trigger]
        crate::tokenize::fits_texts(tokenizer, length, pad_id) ==> crate::tokenize::is_fitted_text(
            tokenizer,
            text,
            length,
            pad_id,
            ids,
            mask,
        )
    &&& crate::tokenize::is_legal_tokenizer(tokenizer) ==> crate::tokenize::is_fixed_encoding(
        ids,
        mask,
    )
}

/// Whether a tokenizer is one that gives a text the same ids each time.
pub open spec fn is_predictable(tokenizer: Tokenizer) -> bool {
    !crate::bpe::tokenizer_state(tokenizer).random
}

/// Whether an error is the one that encoding a text gives with a tokenizer.
pub open spec fn is_encoding_error(
    tokenizer: Tokenizer,
    text: Seq<char>,
    error: TokenizerError,
) -> bool {
    &&& !crate::tokenize::is_legal_tokenizer(tokenizer)
    &&& match error {
        TokenizerError::UnsoundTruncation => !crate::bpe::truncates_soundly(tokenizer, text),
        TokenizerError::Encoding(_) => {
            &&& crate::bpe::truncates_soundly(tokenizer, text)
            &&& is_predictable(tokenizer) ==> crate::tokenize::encoded(tokenizer, text) is None
        },
        _ => false,
    }
}

/// Pairs of texts that are tokenized when they are asked for.
pub struct PairDataset {
    pairs: Vec<TextPair>,
    tokenizer: Arc<Tokenizer>,
}

impl PairDataset {
    /// The pairs.
    pub closed spec fn pairs(&self) -> Seq<TextPair> {
        self.pairs@
    }

    /// The tokenizer.
    pub closed spec fn tokenizer(&self) -> Tokenizer {
        *self.tokenizer
    }

    /// A dataset of pairs and the tokenizer for them.
    pub fn new(pairs: Vec<TextPair>, tokenizer: Arc<Tokenizer>) -> (r: Self)
        ensures
            r.pairs() == pairs@,
            r.tokenizer() == *tokenizer,
    {
        PairDataset { pairs, tokenizer }
    }

    /// The pair at an index, tokenized, if there is one.
    pub fn get(&self, index: usize) -> (r: Result<Option<TokenizedPair>, TokenizerError>)
        requires
            crate::bpe::tokenizer_state(self.tokenizer()).applies,
        ensures
            index >= self.pairs().len() ==> r matches Ok(None),
            index < self.pairs().len() ==> ({
                let pair = self.pairs()[index as int];
                let tokenizer = self.tokenizer();
                match r {
                    Ok(Some(item)) => {
                        &&& encodes_to(
                            tokenizer,
                            pair.anchor@,
                            item.anchor_ids@,
                            item.anchor_mask@,
                        )
                        &&& encodes_to(
                            tokenizer,
                            pair.positive@,
                            item.positive_ids@,
                            item.positive_mask@,
                        )
                    },
                    Ok(None) => false,
                    Err(error) => {
                        ||| is_encoding_error(tokenizer, pair.anchor@, error)
                        ||| is_encoding_error(tokenizer, pair.positive@, error)
                            && crate::bpe::truncates_soundly(tokenizer, pair.anchor@) && (
                        is_predictable(tokenizer) ==> crate::tokenize::encoded(
                            tokenizer,
                            pair.anchor@,
                        ) is Some)
                    },
                }
            }),
    {
        if index >= self.pairs.len() {
            return Ok(None);
        }
        let pair = &self.pairs[index];
        let (anchor_ids, anchor_mask) = match encode(&self.tokenizer, pair.anchor.as_str()) {
            Ok(parts) => parts,
            Err(error) => return Err(error),
        };
        let (positive_ids, positive_mask) = match encode(&self.tokenizer, pair.positive.as_str()) {
            Ok(parts) => parts,
            Err(error) => return Err(error),
        };
        Ok(Some(TokenizedPair { anchor_ids, anchor_mask, positive_ids, positive_mask }))
    }

    /// How many pairs there are.
    pub fn len(&self) -> (r: usize)
        ensures
            r == self.pairs().len(),
    {
        self.pairs.len()
    }
}

/// What a tokenizer gives a text is what it gives the text itself, all of it, with the
/// special tokens; the mask marks the tokens that attention is paid to. Where the
/// tokenizer brings texts to a length, these are the first tokens of the text, and then
/// padding.
pub proof fn law_encoding_is_that_of_the_whole_text(
    tokenizer: Tokenizer,
    text: Seq<char>,
    ids: Seq<u32>,
    mask: Seq<bool>,
    i: int,
)
    requires
        encodes_to(tokenizer, text, ids, mask),
        !crate::bpe::tokenizer_state(tokenizer).random,
    ensures
        match crate::bpe::encoding_of(tokenizer, text, true) {
            Some((tokens, attention)) => {
                &&& ids == tokens
                &&& mask.len() == attention.len()
                &&& 0 <= i < mask.len() ==> mask[i] == (attention[i] == 1)
            },
            None => false,
        },
        crate::tokenize::is_legal_tokenizer(tokenizer) ==> match crate::bpe::encoding_of(
            crate::bpe::bare_of(tokenizer),
            text,
            true,
        ) {
            Some((tokens, _)) => {
                &&& ids.len() == 128
                &&& mask.len() == 128
                &&& 0 <= i < 128 ==> mask[i] == (i < tokens.len())
                &&& 0 <= i < 128 ==> ids[i] == if i < tokens.len() {
                    tokens[i]
                } else {
                    0
                }
            },
            None => false,
        },
{
    if crate::tokenize::is_legal_tokenizer(tokenizer) {
        assert(crate::tokenize::fits_texts(
            tokenizer,
            MAX_SEQ_LEN as nat,
            crate::tokenize::PAD_ID,
        ));
    }
}

/// What a tokenizer trained here gives the texts of a pair can be batched.
pub proof fn law_legal_items_can_be_batched(
    tokenizer: Tokenizer,
    pair: TextPair,
    item: TokenizedPair,
)
    requires
        crate::tokenize::is_legal_tokenizer(tokenizer),
        encodes_to(tokenizer, pair.anchor@, item.anchor_ids@, item.anchor_mask@),
        encodes_to(tokenizer, pair.positive@, item.positive_ids@, item.positive_mask@),
    ensures
        item.has_common_length(),
{
}

/// Token ids as the signed integers that a tensor holds.
pub open spec fn widened(ids: Seq<u32>) -> Seq<i64> {
    Seq::new(ids.len(), |i: int| ids[i] as i64)
}

/// Rows laid out one behind the other.
pub open spec fn flat<T>(rows: Seq<Seq<T>>) -> Seq<T>
    decreases rows.len(),
{
    if rows.len() == 0 {
        Seq::empty()
    } else {
        flat(rows.drop_last()) + rows.last()
    }
}

/// In a flat layout of rows of one width, the element of a row and a column
/// stands at the index that the two give.
pub proof fn law_flat_is_row_major<T>(rows: Seq<Seq<T>>, width: nat, row: int, column: int)
    requires
        forall|i: int| 0 <= i < rows.len() ==> (#[trigger] rows[i]).len() == width,
        0 <= row < rows.len(),
        0 <= column < width,
    ensures
        flat(rows).len() == rows.len() * width,
        0 <= row * width + column < flat(rows).len(),
        flat(rows)[row * width + column] == rows[row][column],
    decreases rows.len(),
{
    let head = rows.drop_last();
    lemma_flat_len(rows, width);
    lemma_flat_len(head, width);
    assert(row * width + column < rows.len() * width) by (nonlinear_arith)
        requires
            0 <= row < rows.len(),
            0 <= column < width,
    ;
    assert(0 <= row * width) by (nonlinear_arith)
        requires
            0 <= row,
            0 <= width,
    ;
    if row < rows.len() - 1 {
        law_flat_is_row_major(head, width, row, column);
    } else {
        assert(row * width == head.len() * width);
    }
}

/// Rows of one width are, one behind the other, as long as their number times the
/// width.
pub proof fn lemma_flat_len<T>(rows: Seq<Seq<T>>, width: nat)
    requires
        forall|i: int| 0 <= i < rows.len() ==> (#[trigger] rows[i]).len() == width,
    ensures
        flat(rows).len() == rows.len() * width,
    decreases rows.len(),
{
    if rows.len() > 0 {
        lemma_flat_len(rows.drop_last(), width);
        assert((rows.len() - 1) * width + width == rows.len() * width) by (nonlinear_arith);
    }
}

/// Append ids to a flat list, widened.
fn extend_ids(flat_ids: &mut Vec<i64>, ids: &Vec<u32>)
    ensures
        final(flat_ids)@ == old(flat_ids)@ + widened(ids@),
{
    let mut i: usize = 0;
    while i < ids.len()
        invariant
            i <= ids@.len(),
            flat_ids@ == old(flat_ids)@ + widened(ids@).take(i as int),
        decreases ids@.len() - i,
    {
        flat_ids.push(ids[i] as i64);
        i += 1;
        assert(flat_ids@ =~= old(flat_ids)@ + widened(ids@).take(i as int));
    }
    assert(widened(ids@).take(i as int) =~= widened(ids@));
}

/// Append flags to a flat list.
fn extend_mask(flat_mask: &mut Vec<bool>, mask: &Vec<bool>)
    ensures
        final(flat_mask)@ == old(flat_mask)@ + mask@,
{
    let mut i: usize = 0;
    while i < mask.len()
        invariant
            i <= mask@.len(),
            flat_mask@ == old(flat_mask)@ + mask@.take(i as int),
        decreases mask@.len() - i,
    {
        flat_mask.push(mask[i]);
        i += 1;
        assert(flat_mask@ =~= old(flat_mask)@ + mask@.take(i as int));
    }
    assert(mask@.take(i as int) =~= mask@);
}

/// The batched input of a training step: for each side the token ids and the
/// mask, `batch_size` rows of [`MAX_SEQ_LEN`] each.
#[derive(Debug, Clone)]
pub struct TrainingBatch {
    pub batch_size: usize,
    pub anchor_ids: Vec<i64>,
    pub anchor_mask: Vec<bool>,
    pub positive_ids: Vec<i64>,
    pub positive_mask: Vec<bool>,
}

/// The rows of anchor ids of some items.
pub open spec fn anchor_id_rows(items: Seq<TokenizedPair>) -> Seq<Seq<i64>> {
    Seq::new(items.len(), |i: int| widened(items[i].anchor_ids@))
}

/// The rows of anchor masks of some items.
pub open spec fn anchor_mask_rows(items: Seq<TokenizedPair>) -> Seq<Seq<bool>> {
    Seq::new(items.len(), |i: int| items[i].anchor_mask@)
}

/// The rows of positive ids of some items.
pub open spec fn positive_id_rows(items: Seq<TokenizedPair>) -> Seq<Seq<i64>> {
    Seq::new(items.len(), |i: int| widened(items[i].positive_ids@))
}

/// The rows of positive masks of some items.
pub open spec fn positive_mask_rows(items: Seq<TokenizedPair>) -> Seq<Seq<bool>> {
    Seq::new(items.len(), |i: int| items[i].positive_mask@)
}

/// A batch holds each item in a row of its own: at each column of the row stand the
/// token and the flag that the item itself has there, on both sides.
pub proof fn law_batch_holds_every_item(items: Seq<TokenizedPair>, row: int, column: int)
    requires
        forall|i: int|
            0 <= i < items.len() ==> (#[trigger] items[i]).anchor_ids@.len() == MAX_SEQ_LEN
                && items[i].anchor_mask@.len() == MAX_SEQ_LEN && items[i].positive_ids@.len()
                == MAX_SEQ_LEN && items[i].positive_mask@.len() == MAX_SEQ_LEN,
        0 <= row < items.len(),
        0 <= column < MAX_SEQ_LEN,
    ensures
        flat(anchor_id_rows(items)).len() == items.len() * MAX_SEQ_LEN,
        flat(anchor_mask_rows(items)).len() == items.len() * MAX_SEQ_LEN,
        flat(positive_id_rows(items)).len() == items.len() * MAX_SEQ_LEN,
        flat(positive_mask_rows(items)).len() == items.len() * MAX_SEQ_LEN,
        0 <= row * MAX_SEQ_LEN + column < items.len() * MAX_SEQ_LEN,
        flat(anchor_id_rows(items))[row * MAX_SEQ_LEN + column] == items[row].anchor_ids@[column],
        flat(anchor_mask_rows(items))[row * MAX_SEQ_LEN + column]
            == items[row].anchor_mask@[column],
        flat(positive_id_rows(items))[row * MAX_SEQ_LEN + column]
            == items[row].positive_ids@[column],
        flat(positive_mask_rows(items))[row * MAX_SEQ_LEN + column]
            == items[row].positive_mask@[column],
{
    law_flat_is_row_major(anchor_id_rows(items), MAX_SEQ_LEN as nat, row, column);
    law_flat_is_row_major(anchor_mask_rows(items), MAX_SEQ_LEN as nat, row, column);
    law_flat_is_row_major(positive_id_rows(items), MAX_SEQ_LEN as nat, row, column);
    law_flat_is_row_major(positive_mask_rows(items), MAX_SEQ_LEN as nat, row, column);
}

/// Collates tokenized pairs into batches.
#[derive(Debug, Clone, Copy)]
pub struct PairBatcher;

impl PairBatcher {
    /// A batcher.
    pub fn new() -> (r: Self)
        ensures
            r == PairBatcher,
    {
        PairBatcher
    }

    /// Lay the items out as one batch.
    pub fn batch(&self, items: &Vec<TokenizedPair>) -> (r: TrainingBatch)
        requires
            forall|i: int| 0 <= i < items@.len() ==> (#[trigger] items@[i]).has_common_length(),
        ensures
            r.batch_size == items@.len(),
            r.anchor_ids@ == flat(anchor_id_rows(items@)),
            r.anchor_mask@ == flat(anchor_mask_rows(items@)),
            r.positive_ids@ == flat(positive_id_rows(items@)),
            r.positive_mask@ == flat(positive_mask_rows(items@)),
            r.anchor_ids@.len() == items@.len() * MAX_SEQ_LEN,
            r.anchor_mask@.len() == items@.len() * MAX_SEQ_LEN,
            r.positive_ids@.len() == items@.len() * MAX_SEQ_LEN,
            r.positive_mask@.len() == items@.len() * MAX_SEQ_LEN,
            forall|row: int, column: int|
                0 <= row < items@.len() && 0 <= column < MAX_SEQ_LEN ==> r.anchor_ids@[row
                    * MAX_SEQ_LEN + column] == #[trigger] items@[row].anchor_ids@[column],
            forall|row: int, column: int|
                0 <= row < items@.len() && 0 <= column < MAX_SEQ_LEN ==> r.anchor_mask@[row
                    * MAX_SEQ_LEN + column] == #[trigger] items@[row].anchor_mask@[column],
            forall|row: int, column: int|
                0 <= row < items@.len() && 0 <= column < MAX_SEQ_LEN ==> r.positive_ids@[row
                    * MAX_SEQ_LEN + column] == #[trigger] items@[row].positive_ids@[column],
            forall|row: int, column: int|
                0 <= row < items@.len() && 0 <= column < MAX_SEQ_LEN ==> r.positive_mask@[row
                    * MAX_SEQ_LEN + column] == #[trigger] items@[row].positive_mask@[column],
    {
        let mut anchor_ids: Vec<i64> = Vec::new();
        let mut anchor_mask: Vec<bool> = Vec::new();
        let mut positive_ids: Vec<i64> = Vec::new();
        let mut positive_mask: Vec<bool> = Vec::new();
        let mut i: usize = 0;
        assert(items@.take(0) =~= Seq::empty());
        while i < items.len()
            invariant
                i <= items@.len(),
                anchor_ids@ == flat(anchor_id_rows(items@.take(i as int))),
                anchor_mask@ == flat(anchor_mask_rows(items@.take(i as int))),
                positive_ids@ == flat(positive_id_rows(items@.take(i as int))),
                positive_mask@ == flat(positive_mask_rows(items@.take(i as int))),
            decreases items@.len() - i,
        {
            let item = &items[i];
            extend_ids(&mut anchor_ids, &item.anchor_ids);
            extend_mask(&mut anchor_mask, &item.anchor_mask);
            extend_ids(&mut positive_ids, &item.positive_ids);
            extend_mask(&mut positive_mask, &item.positive_mask);
            proof {
                let done = items@.take(i as int);
                let more = items@.take(i + 1);
                assert(anchor_id_rows(more).drop_last() =~= anchor_id_rows(done));
                assert(anchor_mask_rows(more).drop_last() =~= anchor_mask_rows(done));
                assert(positive_id_rows(more).drop_last() =~= positive_id_rows(done));
                assert(positive_mask_rows(more).drop_last() =~= positive_mask_rows(done));
            }
            i += 1;
        }
        proof {
            assert(items@.take(i as int) =~= items@);
            lemma_flat_len(anchor_id_rows(items@), MAX_SEQ_LEN as nat);
            lemma_flat_len(anchor_mask_rows(items@), MAX_SEQ_LEN as nat);
            lemma_flat_len(positive_id_rows(items@), MAX_SEQ_LEN as nat);
            lemma_flat_len(positive_mask_rows(items@), MAX_SEQ_LEN as nat);
            assert forall|row: int, column: int|
                0 <= row < items@.len() && 0 <= column < MAX_SEQ_LEN implies anchor_ids@[row
                * MAX_SEQ_LEN + column] == #[trigger] items@[row].anchor_ids@[column] by {
                law_batch_holds_every_item(items@, row, column);
            }
            assert forall|row: int, column: int|
                0 <= row < items@.len() && 0 <= column < MAX_SEQ_LEN implies anchor_mask@[row
                * MAX_SEQ_LEN + column] == #[trigger] items@[row].anchor_mask@[column] by {
                law_batch_holds_every_item(items@, row, column);
            }
            assert forall|row: int, column: int|
                0 <= row < items@.len() && 0 <= column < MAX_SEQ_LEN implies positive_ids@[row
                * MAX_SEQ_LEN + column] == #[trigger] items@[row].positive_ids@[column] by {
                law_batch_holds_every_item(items@, row, column);
            }
            assert forall|row: int, column: int|
                0 <= row < items@.len() && 0 <= column < MAX_SEQ_LEN implies positive_mask@[row
                * MAX_SEQ_LEN + column] == #[trigger] items@[row].positive_mask@[column] by {
                law_batch_holds_every_item(items@, row, column);
            }
        }
        TrainingBatch {
            batch_size: items.len(),
            anchor_ids,
            anchor_mask,
            positive_ids,
            positive_mask,
        }
    }
}

/// Texts as a model takes them: token ids and masks, `rows` rows of
/// [`MAX_SEQ_LEN`] each.
#[derive(Debug, Clone)]
pub struct TokenBatch {
    pub rows: usize,
    pub ids: Vec<i64>,
    pub mask: Vec<bool>,
}

/// The texts that a list of string slices holds.
pub open spec fn str_views(texts: Seq<&str>) -> Seq<Seq<char>> {
    Seq::new(texts.len(), |i: int| texts[i]@)
}

/// Whether rows of ids and masks are what a tokenizer gives some texts.
pub open spec fn rows_encode(
    tokenizer: Tokenizer,
    texts: Seq<Seq<char>>,
    ids: Seq<Seq<u32>>,
    masks: Seq<Seq<bool>>,
) -> bool {
    &&& ids.len() == texts.len()
    &&& masks.len() == texts.len()
    &&& forall|i: int|
        #![trigger texts[i]]
        #![trigger ids[i]]
        #![trigger masks[i]]
        0 <= i < texts.len() ==> ids[i].len() == MAX_SEQ_LEN && masks[i].len() == MAX_SEQ_LEN
            && encodes_to(tokenizer, texts[i], ids[i], masks[i])
}

/// Rows of ids, widened.
pub open spec fn widened_rows(rows: Seq<Seq<u32>>) -> Seq<Seq<i64>> {
    Seq::new(rows.len(), |i: int| widened(rows[i]))
}

/// Whether a tokenizer without randomness gives a text the common number of
/// tokens.
pub open spec fn encodes_to_common_length(tokenizer: Tokenizer, text: Seq<char>) -> bool {
    match crate::tokenize::encoded(tokenizer, text) {
        Some((ids, mask)) => ids.len() == MAX_SEQ_LEN && mask.len() == MAX_SEQ_LEN,
        None => false,
    }
}

/// Whether a batch is what a tokenizer gives some texts, a row for each.
pub open spec fn is_batch_of(
    tokenizer: Tokenizer,
    texts: Seq<Seq<char>>,
    batch: TokenBatch,
) -> bool {
    &&& batch.rows == texts.len()
    &&& batch.ids@.len() == texts.len() * MAX_SEQ_LEN
    &&& batch.mask@.len() == texts.len() * MAX_SEQ_LEN
    &&& exists|ids: Seq<Seq<u32>>, masks: Seq<Seq<bool>>| #[trigger]
        rows_encode(tokenizer, texts, ids, masks) && batch.ids@ == flat(widened_rows(ids))
            && batch.mask@ == flat(masks)
}

/// Whether an error is the one that a text gives with a tokenizer in a batch.
pub open spec fn is_error_of(tokenizer: Tokenizer, text: Seq<char>, error: TokenizerError) -> bool {
    ||| is_encoding_error(tokenizer, text, error)
    ||| {
        &&& error is Length
        &&& crate::bpe::truncates_soundly(tokenizer, text)
        &&& !crate::tokenize::is_legal_tokenizer(tokenizer)
        &&& is_predictable(tokenizer) ==> crate::tokenize::encoded(tokenizer, text) is Some
            && !encodes_to_common_length(tokenizer, text)
    }
}

/// Whether an error is the one that the first text to give one gives with a
/// tokenizer.
pub open spec fn is_first_error(
    tokenizer: Tokenizer,
    texts: Seq<Seq<char>>,
    error: TokenizerError,
) -> bool {
    exists|i: int|
        0 <= i < texts.len() && is_error_of(tokenizer, #[trigger] texts[i], error) && (
        is_predictable(tokenizer) ==> forall|j: int|
            0 <= j < i ==> encodes_to_common_length(tokenizer, #[trigger] texts[j]))
}

/// A batch of texts holds each text in a row of its own: at each column stand the token
/// and the flag that the tokenizer gives the text there.
pub proof fn law_text_rows_are_those_of_the_texts(
    tokenizer: Tokenizer,
    texts: Seq<Seq<char>>,
    batch: TokenBatch,
    row: int,
    column: int,
)
    requires
        is_batch_of(tokenizer, texts, batch),
        !crate::bpe::tokenizer_state(tokenizer).random,
        0 <= row < texts.len(),
        0 <= column < MAX_SEQ_LEN,
    ensures
        batch.rows == texts.len(),
        match crate::bpe::encoding_of(tokenizer, texts[row], true) {
            Some((tokens, attention)) => {
                &&& tokens.len() == MAX_SEQ_LEN
                &&& attention.len() == MAX_SEQ_LEN
                &&& batch.ids@[row * MAX_SEQ_LEN + column] == tokens[column]
                &&& batch.mask@[row * MAX_SEQ_LEN + column] == (attention[column] == 1)
            },
            None => false,
        },
{
    let (ids, masks) = choose|ids: Seq<Seq<u32>>, masks: Seq<Seq<bool>>| #[trigger]
        rows_encode(tokenizer, texts, ids, masks) && batch.ids@ == flat(widened_rows(ids))
            && batch.mask@ == flat(masks);
    law_flat_is_row_major(widened_rows(ids), MAX_SEQ_LEN as nat, row, column);
    law_flat_is_row_major(masks, MAX_SEQ_LEN as nat, row, column);
    assert(encodes_to(tokenizer, texts[row], ids[row], masks[row]));
    law_encoding_is_that_of_the_whole_text(tokenizer, texts[row], ids[row], masks[row], column);
}

/// With a tokenizer trained here, no batch of texts fails.
pub proof fn law_trained_tokenizer_encodes_every_batch(
    tokenizer: Tokenizer,
    texts: Seq<Seq<char>>,
    error: TokenizerError,
)
    requires
        crate::tokenize::is_legal_tokenizer(tokenizer),
    ensures
        !is_first_error(tokenizer, texts, error),
{
}

/// Where a batch of texts fails, with a tokenizer without randomness, one of the texts
/// cannot be truncated, cannot be encoded, or has another number of tokens than all must
/// have; and no text before it is at fault.
pub proof fn law_failed_batch_has_a_text_at_fault(
    tokenizer: Tokenizer,
    texts: Seq<Seq<char>>,
    error: TokenizerError,
)
    requires
        is_first_error(tokenizer, texts, error),
        !crate::bpe::tokenizer_state(tokenizer).random,
    ensures
        exists|i: int|
            {
                &&& 0 <= i < texts.len()
                &&& match crate::bpe::encoding_of(tokenizer, #[trigger] texts[i], true) {
                    Some((tokens, attention)) => error is UnsoundTruncation || tokens.len()
                        != MAX_SEQ_LEN || attention.len() != MAX_SEQ_LEN,
                    None => true,
                }
                &&& error is UnsoundTruncation <==> !crate::bpe::truncates_soundly(
                    tokenizer,
                    texts[i],
                )
                &&& forall|j: int|
                    0 <= j < i ==> match crate::bpe::encoding_of(
                        tokenizer,
                        #[trigger] texts[j],
                        true,
                    ) {
                        Some((tokens, attention)) => tokens.len() == MAX_SEQ_LEN && attention.len()
                            == MAX_SEQ_LEN,
                        None => false,
                    }
            },
{
    let i = choose|i: int|
        0 <= i < texts.len() && is_error_of(tokenizer, #[trigger] texts[i], error) && (
        is_predictable(tokenizer) ==> forall|j: int|
            0 <= j < i ==> encodes_to_common_length(tokenizer, #[trigger] texts[j]));
    assert forall|j: int| 0 <= j < i implies match crate::bpe::encoding_of(
        tokenizer,
        #[trigger] texts[j],
        true,
    ) {
        Some((tokens, attention)) => tokens.len() == MAX_SEQ_LEN && attention.len() == MAX_SEQ_LEN,
        None => false,
    } by {
        assert(encodes_to_common_length(tokenizer, texts[j]));
    }
}

/// Tokenize texts and lay them out as one batch. It fails on the first text that
/// cannot be encoded, or is not encoded to the common number of tokens.
pub fn encode_rows(tokenizer: &Tokenizer, texts: &Vec<&str>) -> (r: Result<
    TokenBatch,
    TokenizerError,
>)
    requires
        crate::bpe::tokenizer_state(*tokenizer).applies,
    ensures
        match r {
            Ok(batch) => is_batch_of(*tokenizer, str_views(texts@), batch),
            Err(error) => is_first_error(*tokenizer, str_views(texts@), error),
        },
{
    let mut flat_ids: Vec<i64> = Vec::new();
    let mut flat_mask: Vec<bool> = Vec::new();
    let ghost mut ids_rows: Seq<Seq<u32>> = Seq::empty();
    let ghost mut mask_rows: Seq<Seq<bool>> = Seq::empty();
    let mut i: usize = 0;
    while i < texts.len()
        invariant
            crate::bpe::tokenizer_state(*tokenizer).applies,
            i <= texts@.len(),
            rows_encode(*tokenizer, str_views(texts@).take(i as int), ids_rows, mask_rows),
            flat_ids@ == flat(widened_rows(ids_rows)),
            flat_mask@ == flat(mask_rows),
        decreases texts@.len() - i,
    {
        let text = texts[i];
        assert(str_views(texts@)[i as int] == text@);
        assert forall|j: int| 0 <= j < i && is_predictable(*tokenizer) implies
            encodes_to_common_length(*tokenizer, #[trigger] str_views(texts@)[j]) by {
            assert(str_views(texts@).take(i as int)[j] == str_views(texts@)[j]);
        }
        let (ids, mask) = match encode(tokenizer, text) {
            Ok(parts) => parts,
            Err(error) => return Err(error),
        };
        if ids.len() != MAX_SEQ_LEN || mask.len() != MAX_SEQ_LEN {
            return Err(TokenizerError::Length);
        }
        extend_ids(&mut flat_ids, &ids);
        extend_mask(&mut flat_mask, &mask);
        proof {
            let next_ids = ids_rows.push(ids@);
            let next_masks = mask_rows.push(mask@);
            assert(widened_rows(next_ids).drop_last() =~= widened_rows(ids_rows));
            assert(next_masks.drop_last() =~= mask_rows);
            let done = str_views(texts@).take(i as int);
            let more = str_views(texts@).take(i + 1);
            assert forall|k: int|
                #![trigger more[k]]
                #![trigger next_ids[k]]
                #![trigger next_masks[k]]
                0 <= k < more.len() implies next_ids[k].len() == MAX_SEQ_LEN
                && next_masks[k].len() == MAX_SEQ_LEN && encodes_to(
                *tokenizer,
                more[k],
                next_ids[k],
                next_masks[k],
            ) by {
                if k < i {
                    assert(done[k] == more[k]);
                }
            }
            ids_rows = next_ids;
            mask_rows = next_masks;
        }
        i += 1;
    }
    proof {
        assert(str_views(texts@).take(i as int) =~= str_views(texts@));
        lemma_flat_len(widened_rows(ids_rows), MAX_SEQ_LEN as nat);
        lemma_flat_len(mask_rows, MAX_SEQ_LEN as nat);
        assert(rows_encode(*tokenizer, str_views(texts@), ids_rows, mask_rows));
    }
    Ok(TokenBatch { rows: texts.len(), ids: flat_ids, mask: flat_mask })
}

/// How many chunks of a size a number of items makes.
pub open spec fn chunk_count(total: nat, size: nat) -> nat {
    (total + size - 1) as nat / size
}

/// The chunk with a number: `size` items, or what is left of them.
pub open spec fn chunk(total: nat, size: nat, k: int) -> (int, int) {
    (
        k * size,
        if (k + 1) * size < total {
            (k + 1) * size
        } else {
            total as int
        },
    )
}

/// Chunks leave no item out and share none: they follow each other from the first
/// item to the last, none is empty, and all but the last are full.
pub proof fn law_chunks_partition(total: nat, size: nat, k: int)
    requires
        size > 0,
        0 <= k < chunk_count(total, size),
    ensures
        0 <= chunk(total, size, k).0 < chunk(total, size, k).1 <= total,
        chunk(total, size, 0).0 == 0,
        k + 1 < chunk_count(total, size) ==> chunk(total, size, k).1 == chunk(
            total,
            size,
            k + 1,
        ).0 && chunk(total, size, k).1 - chunk(total, size, k).0 == size,
        k + 1 == chunk_count(total, size) ==> chunk(total, size, k).1 == total,
{
    let count = chunk_count(total, size) as int;
    let sum = total + size - 1;
    assert(sum == size * (sum / (size as int)) + sum % (size as int)
        && 0 <= sum % (size as int) < size) by (nonlinear_arith)
        requires
            size > 0,
            sum >= 0,
    ;
    assert(size * count == count * size) by (nonlinear_arith);
    assert(0 * size == 0) by (nonlinear_arith);
    assert(0 <= k * size && (k + 1) * size == k * size + size && k * size <= (count - 1) * size
        && (count - 1) * size == count * size - size) by (nonlinear_arith)
        requires
            0 <= k <= count - 1,
            size > 0,
    ;
    if k + 1 < count {
        assert((k + 1) * size <= (count - 1) * size) by (nonlinear_arith)
            requires
                k + 1 <= count - 1,
                size > 0,
        ;
    }
}

/// There are as many chunks as the items need: the last is not empty, and all of them
/// together have room for every item.
pub proof fn law_chunks_are_as_few_as_fit(total: nat, size: nat)
    requires
        size > 0,
    ensures
        total <= chunk_count(total, size) * size,
        chunk_count(total, size) > 0 ==> (chunk_count(total, size) - 1) * size < total,
        chunk_count(total, size) == 0 <==> total == 0,
{
    let count = chunk_count(total, size) as int;
    lemma_chunk_count(total, size, count);
    lemma_chunk_count(total, size, 0);
    assert(0 * size == 0) by (nonlinear_arith);
    if count > 0 {
        lemma_chunk_count(total, size, count - 1);
    }
}

/// Split a number of items into chunks of a size, each as its bounds.
pub fn chunk_ranges(total: usize, size: usize) -> (r: Vec<(usize, usize)>)
    requires
        size > 0,
    ensures
        r@.len() == chunk_count(total as nat, size as nat),
        forall|k: int|
            0 <= k < r@.len() ==> (#[trigger] r@[k]).0 == chunk(total as nat, size as nat, k).0
                && r@[k].1 == chunk(total as nat, size as nat, k).1,
        forall|k: int| 0 <= k < r@.len() ==> (#[trigger] r@[k]).0 < r@[k].1 <= total,
{
    let mut out: Vec<(usize, usize)> = Vec::new();
    let mut start: usize = 0;
    let ghost count = chunk_count(total as nat, size as nat) as int;
    proof {
        lemma_chunk_count(total as nat, size as nat, 0);
        assert(0 * size == 0) by (nonlinear_arith);
    }
    while start < total
        invariant
            size > 0,
            count == chunk_count(total as nat, size as nat),
            start < total ==> start == out@.len() * size,
            start <= total,
            start < total ==> out@.len() < count,
            start == total ==> out@.len() == count,
            forall|k: int|
                0 <= k < out@.len() ==> (#[trigger] out@[k]).0 == chunk(
                    total as nat,
                    size as nat,
                    k,
                ).0 && out@[k].1 == chunk(total as nat, size as nat, k).1,
            forall|k: int| 0 <= k < out@.len() ==> (#[trigger] out@[k]).0 < out@[k].1 <= total,
        decreases total - start,
    {
        let ghost k = out@.len() as int;
        proof {
            law_chunks_partition(total as nat, size as nat, k);
            lemma_chunk_count(total as nat, size as nat, k + 1);
            assert((k + 1) * size == k * size + size) by (nonlinear_arith);
        }
        let end = if total - start > size {
            start + size
        } else {
            total
        };
        out.push((start, end));
        start = end;
    }
    out
}

/// A chunk with a number is there where its first item is.
pub proof fn lemma_chunk_count(total: nat, size: nat, k: int)
    requires
        size > 0,
        0 <= k <= chunk_count(total, size),
    ensures
        k * size < total <==> k < chunk_count(total, size),
{
    let count = chunk_count(total, size) as int;
    let sum = total + size - 1;
    assert(sum == size * (sum / (size as int)) + sum % (size as int)
        && 0 <= sum % (size as int) < size) by (nonlinear_arith)
        requires
            size > 0,
            sum >= 0,
    ;
    assert(size * count == count * size) by (nonlinear_arith);
    if k < count {
        assert(k * size <= count * size - size) by (nonlinear_arith)
            requires
                k <= count - 1,
                size > 0,
        ;
    }
}

} // verus!
