//! What training and export decide: the split of the pairs, the learning-rate
//! schedule, the checkpoint that is loaded, and what is written to the index.

use vstd::prelude::*;

use crate::data::TextPair;
use crate::dataset::{chunk_ranges, flat};
use crate::model::EMBED_DIM;

verus! {

/// The name under which embeddings are stored.
pub const MODEL_NAME: &'static str = "legal-learn-v1";

/// How many documents are embedded at a time.
pub const EXPORT_BATCH_SIZE: usize = 64;

/// How many of a number of pairs are for training: nine tenths, rounded down.
pub open spec fn train_share(pairs: nat) -> nat {
    9 * pairs / 10
}

/// How many of a number of pairs are for training; the rest are for validation.
pub fn split_point(pairs: usize) -> (r: usize)
    ensures
        r == train_share(pairs as nat),
        r <= pairs,
{
    let held_out = if pairs % 10 == 0 {
        pairs / 10
    } else {
        pairs / 10 + 1
    };
    pairs - held_out
}

/// Split the pairs into those for training and those for validation.
pub fn split_pairs(pairs: Vec<TextPair>) -> (r: (Vec<TextPair>, Vec<TextPair>))
    ensures
        r.0@ == pairs@.take(train_share(pairs@.len()) as int),
        r.1@ == pairs@.skip(train_share(pairs@.len()) as int),
{
    let mut train = pairs;
    let split = split_point(train.len());
    let valid = train.split_off(split);
    (train, valid)
}

/// Nine tenths of the pairs are for training, and no further pair could be without there
/// being more than that.
pub proof fn law_nine_tenths_are_for_training(pairs: nat)
    ensures
        train_share(pairs) <= pairs,
        10 * train_share(pairs) <= 9 * pairs,
        9 * pairs < 10 * (train_share(pairs) + 1),
{
}

/// No pair is lost in the split and none is in both parts: the two parts,
/// one behind the other, are the pairs.
pub proof fn law_split_keeps_every_pair(pairs: Seq<TextPair>)
    ensures
        pairs.take(train_share(pairs.len()) as int) + pairs.skip(train_share(pairs.len()) as int)
            == pairs,
{
    assert(pairs.take(train_share(pairs.len()) as int) + pairs.skip(
        train_share(pairs.len()) as int,
    ) =~= pairs);
}

/// How the learning rate changes over a run.
#[derive(Debug, Clone, Copy, PartialEq, Eq, Structural)]
pub enum LrPlan {
    /// Cosine annealing alone.
    Cosine { cosine_iters: usize },
    /// A linear rise, and cosine annealing over the iterations that it leaves.
    WarmupCosine { warmup_steps: usize, cosine_iters: usize },
}

/// The iterations of a run: those of an epoch, as many times as there are epochs.
pub open spec fn total_iterations(pairs: nat, batch_size: nat, epochs: nat) -> nat {
    epochs * crate::dataset::chunk_count(pairs, batch_size)
}

/// A number, or one where it is zero.
pub open spec fn at_least_one(n: nat) -> nat {
    if n == 0 {
        1
    } else {
        n
    }
}

/// The schedule for a run of a number of iterations.
pub open spec fn plan_for(total_iters: nat, warmup_steps: nat) -> LrPlan {
    if warmup_steps > 0 {
        LrPlan::WarmupCosine {
            warmup_steps: warmup_steps as usize,
            cosine_iters: if total_iters > warmup_steps {
                (total_iters - warmup_steps) as usize
            } else {
                1
            },
        }
    } else {
        LrPlan::Cosine { cosine_iters: at_least_one(total_iters) as usize }
    }
}

/// How many batches an epoch has.
pub fn iterations_per_epoch(pairs: usize, batch_size: usize) -> (r: usize)
    requires
        batch_size > 0,
    ensures
        r == crate::dataset::chunk_count(pairs as nat, batch_size as nat),
{
    proof {
        lemma_ceil(pairs as int, batch_size as int);
    }
    if pairs % batch_size == 0 {
        pairs / batch_size
    } else {
        pairs / batch_size + 1
    }
}

proof fn lemma_ceil(n: int, d: int)
    requires
        n >= 0,
        d > 0,
    ensures
        n % d == 0 ==> (n + d - 1) / d == n / d,
        n % d != 0 ==> (n + d - 1) / d == n / d + 1,
        n % d != 0 ==> n / d < n,
        n / d <= n,
{
    let q = n / d;
    let m = n % d;
    assert(n == d * q + m && 0 <= m < d && 0 <= q) by (nonlinear_arith)
        requires
            d > 0,
            n >= 0,
            q == n / d,
            m == n % d,
    ;
    assert(q <= d * q) by (nonlinear_arith)
        requires
            d >= 1,
            q >= 0,
    ;
    if m == 0 {
        assert((n + d - 1) / d == q) by (nonlinear_arith)
            requires
                n == d * q,
                d > 0,
        ;
    } else {
        assert((n + d - 1) / d == q + 1) by (nonlinear_arith)
            requires
                n == d * q + m,
                0 < m < d,
        ;
    }
}

/// The schedule of a training run.
pub fn lr_plan(pairs: usize, batch_size: usize, epochs: usize, warmup_steps: usize) -> (r: LrPlan)
    requires
        batch_size > 0,
        total_iterations(pairs as nat, batch_size as nat, epochs as nat) <= usize::MAX,
    ensures
        r == plan_for(
            total_iterations(pairs as nat, batch_size as nat, epochs as nat),
            warmup_steps as nat,
        ),
{
    let total_iters = epochs * iterations_per_epoch(pairs, batch_size);
    if warmup_steps > 0 {
        LrPlan::WarmupCosine {
            warmup_steps,
            cosine_iters: if total_iters > warmup_steps {
                total_iters - warmup_steps
            } else {
                1
            },
        }
    } else {
        LrPlan::Cosine {
            cosine_iters: if total_iters == 0 {
                1
            } else {
                total_iters
            },
        }
    }
}

/// Every schedule anneals over at least one iteration, and one whose warmup ends
/// before the run does covers the run exactly.
pub proof fn law_plan_covers_the_run(total_iters: nat, warmup_steps: nat)
    requires
        total_iters <= usize::MAX,
        warmup_steps <= usize::MAX,
    ensures
        match plan_for(total_iters, warmup_steps) {
            LrPlan::Cosine { cosine_iters } => cosine_iters >= 1 && (total_iters > 0
                ==> cosine_iters == total_iters),
            LrPlan::WarmupCosine { warmup_steps: steps, cosine_iters } => steps == warmup_steps
                && cosine_iters >= 1 && (total_iters > warmup_steps ==> steps + cosine_iters
                == total_iters),
        },
{
}

/// There is a warmup exactly where one is asked for, of as many steps as were asked for.
/// Where it takes the whole run or more, or where there is nothing to run, one iteration
/// is left for annealing.
pub proof fn law_warmup_is_as_long_as_asked(total_iters: nat, warmup_steps: nat)
    requires
        total_iters <= usize::MAX,
        warmup_steps <= usize::MAX,
    ensures
        match plan_for(total_iters, warmup_steps) {
            LrPlan::Cosine { cosine_iters } => warmup_steps == 0 && (total_iters == 0
                ==> cosine_iters == 1),
            LrPlan::WarmupCosine { warmup_steps: steps, cosine_iters } => warmup_steps > 0
                && steps == warmup_steps && (total_iters <= warmup_steps ==> cosine_iters == 1),
        },
{
}

/// A run goes through all pairs once in each epoch: the iterations of an epoch have room
/// for every pair, and with one iteration fewer they had not.
pub proof fn law_run_sees_every_pair_in_each_epoch(pairs: nat, batch_size: nat, epochs: nat)
    requires
        batch_size > 0,
    ensures
        total_iterations(pairs, batch_size, 1) * batch_size >= pairs,
        pairs > 0 ==> (total_iterations(pairs, batch_size, 1) - 1) * batch_size < pairs,
        pairs == 0 ==> total_iterations(pairs, batch_size, 1) == 0,
        total_iterations(pairs, batch_size, 0) == 0,
        total_iterations(pairs, batch_size, epochs + 1) == total_iterations(
            pairs,
            batch_size,
            epochs,
        ) + total_iterations(pairs, batch_size, 1),
{
    let count = crate::dataset::chunk_count(pairs, batch_size) as int;
    crate::dataset::law_chunks_are_as_few_as_fit(pairs, batch_size);
    assert(1 * count == count && 0 * count == 0 && (epochs + 1) * count == epochs * count + count)
        by (nonlinear_arith);
}

/// The path of a file in a directory.
pub fn path_in(dir: &str, name: &str) -> (r: String)
    ensures
        r@ == dir@ + "/"@ + name@,
{
    let mut path = dir.to_owned();
    path.append("/");
    path.append(name);
    path
}

/// The path of the stored tokenizer.
pub fn tokenizer_path(dir: &str) -> (r: String)
    ensures
        r@ == dir@ + "/"@ + "tokenizer.json"@,
{
    path_in(dir, "tokenizer.json")
}

/// The path of the model that contrastive training saves, without its extension.
pub fn final_model_path(dir: &str) -> (r: String)
    ensures
        r@ == dir@ + "/"@ + "model_final"@,
{
    path_in(dir, "model_final")
}

/// The path of the model that distillation saves, without its extension.
pub fn distilled_model_path(dir: &str) -> (r: String)
    ensures
        r@ == dir@ + "/"@ + "model_distilled"@,
{
    path_in(dir, "model_distilled")
}

/// The files, plain and compressed, of which one is there when contrastive
/// training has saved a model.
pub fn final_model_files(dir: &str) -> (r: (String, String))
    ensures
        r.0@ == dir@ + "/"@ + "model_final"@ + ".mpk"@,
        r.1@ == dir@ + "/"@ + "model_final"@ + ".mpk.gz"@,
{
    let mut plain = final_model_path(dir);
    let mut compressed = final_model_path(dir);
    plain.append(".mpk");
    compressed.append(".mpk.gz");
    (plain, compressed)
}

/// The checkpoint to load: that of contrastive training where one of its files is
/// there, and else that of distillation.
pub fn model_path(dir: &str, plain_exists: bool, compressed_exists: bool) -> (r: String)
    ensures
        r@ == dir@ + "/"@ + if plain_exists || compressed_exists {
            "model_final"@
        } else {
            "model_distilled"@
        },
{
    if plain_exists || compressed_exists {
        final_model_path(dir)
    } else {
        distilled_model_path(dir)
    }
}

/// One step of an export.
#[derive(Debug, Clone, Copy, PartialEq, Eq, Structural)]
pub enum ExportStep {
    /// Begin the transaction.
    Begin,
    /// Delete the model's embeddings from the table.
    ClearVectors,
    /// Delete the model's embeddings from the vector index.
    ClearIndex,
    /// Embed the documents with numbers from `start` up to `end` and write them.
    Write { start: usize, end: usize },
    /// Commit the transaction.
    Commit,
}

/// The steps of an export of a number of documents.
pub open spec fn export_steps(documents: nat) -> Seq<ExportStep> {
    let writes = Seq::new(
        crate::dataset::chunk_count(documents, EXPORT_BATCH_SIZE as nat),
        |k: int|
            ExportStep::Write {
                start: crate::dataset::chunk(documents, EXPORT_BATCH_SIZE as nat, k).0 as usize,
                end: crate::dataset::chunk(documents, EXPORT_BATCH_SIZE as nat, k).1 as usize,
            },
    );
    seq![ExportStep::Begin, ExportStep::ClearVectors, ExportStep::ClearIndex] + writes
        + seq![ExportStep::Commit]
}

/// Plan an export: in one transaction the model's old embeddings are deleted and
/// those of all documents are written, a batch at a time.
pub fn export_plan(documents: usize) -> (r: Vec<ExportStep>)
    ensures
        r@ == export_steps(documents as nat),
{
    let ranges = chunk_ranges(documents, EXPORT_BATCH_SIZE);
    let ghost all = export_steps(documents as nat);
    let mut steps: Vec<ExportStep> = Vec::new();
    steps.push(ExportStep::Begin);
    steps.push(ExportStep::ClearVectors);
    steps.push(ExportStep::ClearIndex);
    let mut k: usize = 0;
    while k < ranges.len()
        invariant
            k <= ranges@.len(),
            all == export_steps(documents as nat),
            ranges@.len() == crate::dataset::chunk_count(
                documents as nat,
                EXPORT_BATCH_SIZE as nat,
            ),
            forall|j: int|
                0 <= j < ranges@.len() ==> (#[trigger] ranges@[j]).0 == crate::dataset::chunk(
                    documents as nat,
                    EXPORT_BATCH_SIZE as nat,
                    j,
                ).0 && ranges@[j].1 == crate::dataset::chunk(
                    documents as nat,
                    EXPORT_BATCH_SIZE as nat,
                    j,
                ).1,
            steps@ == all.take(3 + k),
        decreases ranges@.len() - k,
    {
        steps.push(ExportStep::Write { start: ranges[k].0, end: ranges[k].1 });
        k += 1;
        assert(steps@ =~= all.take(3 + k));
    }
    steps.push(ExportStep::Commit);
    assert(steps@ =~= all);
    steps
}

/// An export is one transaction: it begins first and commits last, and everything
/// is deleted before anything is written.
pub proof fn law_export_is_one_transaction(documents: nat, i: int)
    requires
        0 <= i < export_steps(documents).len(),
    ensures
        export_steps(documents)[i] is Begin <==> i == 0,
        export_steps(documents)[i] is ClearVectors <==> i == 1,
        export_steps(documents)[i] is ClearIndex <==> i == 2,
        export_steps(documents)[i] is Write <==> 3 <= i < export_steps(documents).len() - 1,
        export_steps(documents)[i] is Commit <==> i == export_steps(documents).len() - 1,
{
}

/// An export writes the documents in order: each batch goes on where the one before it
/// stopped, with 64 documents or those that are left.
pub proof fn law_export_writes_in_order(documents: nat, k: int)
    requires
        documents <= usize::MAX,
        0 <= k < export_steps(documents).len() - 4,
    ensures
        match export_steps(documents)[3 + k] {
            ExportStep::Write { start, end } => {
                &&& start == 64 * k
                &&& start < end <= documents
                &&& end == start + 64 || (end < start + 64 && end == documents)
                &&& k == export_steps(documents).len() - 5 ==> end == documents
            },
            _ => false,
        },
        documents > 0 ==> export_steps(documents).len() >= 5,
{
    crate::dataset::law_chunks_partition(documents, EXPORT_BATCH_SIZE as nat, k);
}

/// An export of no documents writes none.
pub proof fn law_empty_export_writes_nothing(documents: nat)
    requires
        documents <= usize::MAX,
    ensures
        export_steps(documents).len() == 4 <==> documents == 0,
        export_steps(documents).len() >= 4,
{
    crate::dataset::law_chunks_are_as_few_as_fit(documents, EXPORT_BATCH_SIZE as nat);
}

/// An export writes every document once: each is in exactly one batch.
pub proof fn law_export_writes_every_document(documents: nat, doc: int)
    requires
        documents <= usize::MAX,
        0 <= doc < documents,
    ensures
        exists|i: int|
            0 <= i < export_steps(documents).len() && writes_document(
                #[trigger] export_steps(documents)[i],
                doc,
            ) && forall|j: int|
                0 <= j < export_steps(documents).len() && writes_document(
                    #[trigger] export_steps(documents)[j],
                    doc,
                ) ==> j == i,
{
    let size = EXPORT_BATCH_SIZE as nat;
    let steps = export_steps(documents);
    let k = doc / 64;
    assert(k < crate::dataset::chunk_count(documents, size));
    crate::dataset::law_chunks_partition(documents, size, k);
    assert(writes_document(steps[3 + k], doc));
    assert forall|j: int| 0 <= j < steps.len() && writes_document(#[trigger] steps[j], doc) implies j
        == 3 + k by {
        assert(steps[j] is Write);
        crate::dataset::law_chunks_partition(documents, size, j - 3);
    }
}

/// Whether a step writes a document.
pub open spec fn writes_document(step: ExportStep, doc: int) -> bool {
    match step {
        ExportStep::Write { start, end } => start <= doc < end,
        _ => false,
    }
}

/// An embedding as it is written: the document's hash, the single-precision
/// numbers by their bits, and the bytes for the vector index.
#[derive(Debug, Clone)]
pub struct VectorRecord {
    pub hash: String,
    pub embedding: Vec<u32>,
    pub bytes: Vec<u8>,
}

/// The four bytes of a 32-bit word, the lowest first.
pub open spec fn le_bytes(word: u32) -> Seq<u8> {
    seq![
        (word % 256) as u8,
        (word / 256 % 256) as u8,
        (word / 65536 % 256) as u8,
        (word / 16777216) as u8,
    ]
}

/// The bytes of a list of words.
pub open spec fn words_le_bytes(words: Seq<u32>) -> Seq<u8> {
    flat(Seq::new(words.len(), |i: int| le_bytes(words[i])))
}

/// The word that four bytes spell, the lowest first.
pub open spec fn word_of(bytes: Seq<u8>) -> int {
    bytes[0] + 256 * bytes[1] + 65536 * bytes[2] + 16777216 * bytes[3]
}

proof fn lemma_word_of_le_bytes(word: u32)
    ensures
        le_bytes(word)[0] + 256 * le_bytes(word)[1] + 65536 * le_bytes(word)[2] + 16777216
            * le_bytes(word)[3] == word,
{
    assert(word == word % 256 + 256 * (word / 256 % 256) + 65536 * (word / 65536 % 256) + 16777216
        * (word / 16777216));
}

/// The stored bytes give every number of an embedding back: the four bytes at its
/// place spell its bits.
pub proof fn law_bytes_give_words_back(words: Seq<u32>, i: int)
    requires
        0 <= i < words.len(),
    ensures
        words_le_bytes(words).len() == 4 * words.len(),
        word_of(words_le_bytes(words).subrange(4 * i, 4 * i + 4)) == words[i],
{
    law_bytes_are_little_endian(words, i);
}

/// An embedding is stored in little-endian order: of the four bytes at the place of a
/// number, each further one counts 256 times as much as the one before it.
pub proof fn law_bytes_are_little_endian(words: Seq<u32>, i: int)
    requires
        0 <= i < words.len(),
    ensures
        words_le_bytes(words).len() == 4 * words.len(),
        words[i] == words_le_bytes(words)[4 * i] + 256 * words_le_bytes(words)[4 * i + 1] + 256
            * 256 * words_le_bytes(words)[4 * i + 2] + 256 * 256 * 256 * words_le_bytes(words)[4 * i
            + 3],
{
    let rows = Seq::new(words.len(), |k: int| le_bytes(words[k]));
    crate::dataset::law_flat_is_row_major(rows, 4, i, 0);
    crate::dataset::law_flat_is_row_major(rows, 4, i, 1);
    crate::dataset::law_flat_is_row_major(rows, 4, i, 2);
    crate::dataset::law_flat_is_row_major(rows, 4, i, 3);
    lemma_word_of_le_bytes(words[i]);
}

/// The bytes of an embedding for the vector index: each number in little-endian
/// order.
pub fn embedding_bytes(words: &Vec<u32>) -> (r: Vec<u8>)
    ensures
        r@ == words_le_bytes(words@),
{
    let mut out: Vec<u8> = Vec::new();
    let ghost rows = Seq::new(words@.len(), |k: int| le_bytes(words@[k]));
    let mut i: usize = 0;
    while i < words.len()
        invariant
            i <= words@.len(),
            rows == Seq::new(words@.len(), |k: int| le_bytes(words@[k])),
            out@ == flat(rows.take(i as int)),
        decreases words@.len() - i,
    {
        let word = words[i];
        out.push((word % 256) as u8);
        out.push((word / 256 % 256) as u8);
        out.push((word / 65536 % 256) as u8);
        out.push((word / 16777216) as u8);
        proof {
            let next = rows.take(i + 1);
            assert(next.drop_last() =~= rows.take(i as int));
            assert(out@ =~= flat(rows.take(i as int)) + le_bytes(word));
        }
        i += 1;
    }
    assert(rows.take(i as int) =~= rows);
    out
}

/// The numbers of one row of a flat matrix of embeddings.
pub open spec fn embedding_at(data: Seq<u32>, row: int) -> Seq<u32> {
    data.subrange(row * EMBED_DIM, (row + 1) * EMBED_DIM)
}

/// A row of a flat matrix has 384 numbers, which stand one behind the other, behind those
/// of the rows before it.
pub proof fn law_rows_stand_behind_each_other(data: Seq<u32>, row: int, column: int)
    requires
        0 <= row,
        (row + 1) * 384 <= data.len(),
        0 <= column < 384,
    ensures
        embedding_at(data, row).len() == 384,
        embedding_at(data, row)[column] == data[row * 384 + column],
{
}

/// One row of a flat matrix of embeddings.
pub fn embedding_row(data: &Vec<u32>, row: usize) -> (r: Vec<u32>)
    requires
        (row + 1) * EMBED_DIM <= data@.len(),
    ensures
        r@ == embedding_at(data@, row as int),
        r@.len() == EMBED_DIM,
{
    let len = data.len();
    let start = row * EMBED_DIM;
    let mut out: Vec<u32> = Vec::new();
    let mut c: usize = 0;
    while c < EMBED_DIM
        invariant
            c <= EMBED_DIM,
            start == row * EMBED_DIM,
            len == data@.len(),
            (row + 1) * EMBED_DIM <= len,
            out@ == embedding_at(data@, row as int).take(c as int),
        decreases EMBED_DIM - c,
    {
        out.push(data[start + c]);
        c += 1;
        assert(out@ =~= embedding_at(data@, row as int).take(c as int));
    }
    assert(out@ =~= embedding_at(data@, row as int));
    out
}

/// The records of a batch of documents: each hash with its row of the embeddings
/// that the model gave the batch.
pub fn vector_records(hashes: &Vec<String>, data: &Vec<u32>) -> (r: Vec<VectorRecord>)
    requires
        hashes@.len() * EMBED_DIM <= data@.len(),
    ensures
        r@.len() == hashes@.len(),
        forall|j: int|
            0 <= j < r@.len() ==> {
                &&& (#[trigger] r@[j]).hash@ == hashes@[j]@
                &&& r@[j].embedding@ == embedding_at(data@, j)
                &&& r@[j].bytes@ == words_le_bytes(embedding_at(data@, j))
                &&& r@[j].embedding@.len() == EMBED_DIM
                &&& r@[j].bytes@.len() == 4 * EMBED_DIM
            },
        forall|j: int, column: int|
            0 <= j < r@.len() && 0 <= column < EMBED_DIM ==> #[trigger] r@[j].embedding@[column]
                == data@[j * EMBED_DIM + column],
{
    let mut out: Vec<VectorRecord> = Vec::new();
    let mut j: usize = 0;
    while j < hashes.len()
        invariant
            j <= hashes@.len(),
            hashes@.len() * EMBED_DIM <= data@.len(),
            out@.len() == j,
            forall|k: int|
                0 <= k < j ==> {
                    &&& (#[trigger] out@[k]).hash@ == hashes@[k]@
                    &&& out@[k].embedding@ == embedding_at(data@, k)
                    &&& out@[k].bytes@ == words_le_bytes(embedding_at(data@, k))
                    &&& out@[k].embedding@.len() == EMBED_DIM
                    &&& out@[k].bytes@.len() == 4 * EMBED_DIM
                },
        decreases hashes@.len() - j,
    {
        let embedding = embedding_row(data, j);
        let bytes = embedding_bytes(&embedding);
        proof {
            law_bytes_give_words_back(embedding@, 0);
        }
        out.push(VectorRecord { hash: hashes[j].clone(), embedding, bytes });
        j += 1;
    }
    out
}

} // verus!
