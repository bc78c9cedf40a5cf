use legal_learn::data::TextPair;
use legal_learn::dataset::chunk_ranges;
use legal_learn::loss::matryoshka_dims;
use legal_learn::model::{EmbeddingModelConfig, EMBED_DIM};
use legal_learn::tokenize::{MAX_SEQ_LEN, VOCAB_SIZE};
use legal_learn::training::{
    distilled_model_path, embedding_bytes, embedding_row, export_plan, final_model_files,
    final_model_path, iterations_per_epoch, lr_plan, model_path, path_in, split_pairs, split_point,
    tokenizer_path, vector_records, ExportStep, LrPlan, MODEL_NAME,
};

fn pairs(count: usize) -> Vec<TextPair> {
    (0..count)
        .map(|i| TextPair { anchor: i.to_string(), positive: format!("p{i}") })
        .collect()
}

#[test]
fn nine_tenths_are_for_training() {
    for n in 0..10_000_usize {
        assert_eq!(split_point(n), (n as f64 * 0.9) as usize);
    }
    assert_eq!(split_point(10), 9);
    assert_eq!(split_point(1), 0);
    assert_eq!(split_point(usize::MAX), usize::MAX - usize::MAX / 10 - 1);
}

#[test]
fn split_keeps_every_pair() {
    let (train, valid) = split_pairs(pairs(25));
    assert_eq!(train.len(), 22);
    assert_eq!(valid.len(), 3);
    let all: Vec<String> =
        train.iter().chain(valid.iter()).map(|p| p.anchor.clone()).collect();
    let expected: Vec<String> = (0..25).map(|i: usize| i.to_string()).collect();
    assert_eq!(all, expected);
}

#[test]
fn epochs_have_a_batch_for_what_is_left() {
    assert_eq!(iterations_per_epoch(0, 32), 0);
    assert_eq!(iterations_per_epoch(1, 32), 1);
    assert_eq!(iterations_per_epoch(32, 32), 1);
    assert_eq!(iterations_per_epoch(33, 32), 2);
    assert_eq!(iterations_per_epoch(usize::MAX, 1), usize::MAX);
}

#[test]
fn schedule_without_warmup_is_cosine() {
    assert_eq!(lr_plan(100, 32, 10, 0), LrPlan::Cosine { cosine_iters: 40 });
    assert_eq!(lr_plan(0, 32, 10, 0), LrPlan::Cosine { cosine_iters: 1 });
}

#[test]
fn schedule_with_warmup_covers_the_run() {
    assert_eq!(
        lr_plan(100, 32, 10, 5),
        LrPlan::WarmupCosine { warmup_steps: 5, cosine_iters: 35 }
    );
    assert_eq!(
        lr_plan(100, 32, 10, 40),
        LrPlan::WarmupCosine { warmup_steps: 40, cosine_iters: 1 }
    );
    assert_eq!(
        lr_plan(100, 32, 10, 100),
        LrPlan::WarmupCosine { warmup_steps: 100, cosine_iters: 1 }
    );
}

#[test]
fn checkpoint_files_have_their_places() {
    assert_eq!(path_in("a", "b"), "a/b");
    assert_eq!(tokenizer_path("checkpoints"), "checkpoints/tokenizer.json");
    assert_eq!(final_model_path("c"), "c/model_final");
    assert_eq!(distilled_model_path("c"), "c/model_distilled");
    assert_eq!(
        final_model_files("c"),
        ("c/model_final.mpk".to_string(), "c/model_final.mpk.gz".to_string())
    );
}

#[test]
fn trained_checkpoint_is_preferred() {
    assert_eq!(model_path("c", true, false), "c/model_final");
    assert_eq!(model_path("c", false, true), "c/model_final");
    assert_eq!(model_path("c", true, true), "c/model_final");
    assert_eq!(model_path("c", false, false), "c/model_distilled");
}

#[test]
fn export_is_one_transaction() {
    assert_eq!(
        export_plan(0),
        vec![
            ExportStep::Begin,
            ExportStep::ClearVectors,
            ExportStep::ClearIndex,
            ExportStep::Commit
        ]
    );
    assert_eq!(
        export_plan(130),
        vec![
            ExportStep::Begin,
            ExportStep::ClearVectors,
            ExportStep::ClearIndex,
            ExportStep::Write { start: 0, end: 64 },
            ExportStep::Write { start: 64, end: 128 },
            ExportStep::Write { start: 128, end: 130 },
            ExportStep::Commit
        ]
    );
}

#[test]
fn export_writes_every_document_once() {
    for documents in [1, 63, 64, 65, 200] {
        let mut written = vec![0; documents];
        for step in export_plan(documents) {
            if let ExportStep::Write { start, end } = step {
                for doc in start..end {
                    written[doc] += 1;
                }
            }
        }
        assert_eq!(written, vec![1; documents]);
    }
}

#[test]
fn chunks_partition_the_items() {
    assert_eq!(chunk_ranges(0, 3), vec![]);
    assert_eq!(chunk_ranges(2, 3), vec![(0, 2)]);
    assert_eq!(chunk_ranges(6, 3), vec![(0, 3), (3, 6)]);
    assert_eq!(chunk_ranges(7, 3), vec![(0, 3), (3, 6), (6, 7)]);
    assert_eq!(chunk_ranges(5, usize::MAX), vec![(0, 5)]);
}

#[test]
fn vectors_are_little_endian() {
    let numbers = [0.0_f32, -0.0, 1.0, -2.5, f32::MIN_POSITIVE, f32::MAX, 0.1];
    let words: Vec<u32> = numbers.iter().map(|x| x.to_bits()).collect();
    let expected: Vec<u8> = numbers.iter().flat_map(|x| x.to_le_bytes()).collect();
    let bytes = embedding_bytes(&words);
    assert_eq!(bytes, expected);
    for (i, word) in words.iter().enumerate() {
        let spelled = [bytes[4 * i], bytes[4 * i + 1], bytes[4 * i + 2], bytes[4 * i + 3]];
        assert_eq!(u32::from_le_bytes(spelled), *word);
    }
    assert_eq!(embedding_bytes(&vec![0x3f80_0000]), vec![0, 0, 0x80, 0x3f]);
}

#[test]
fn rows_are_as_wide_as_an_embedding() {
    let data: Vec<u32> = (0..3 * EMBED_DIM as u32).collect();
    assert_eq!(embedding_row(&data, 0), (0..384).collect::<Vec<u32>>());
    assert_eq!(embedding_row(&data, 2), (768..1152).collect::<Vec<u32>>());
}

#[test]
fn records_pair_hashes_with_rows() {
    let data: Vec<u32> = (0..2 * EMBED_DIM as u32).collect();
    let records = vector_records(&vec!["h1".to_string(), "h2".to_string()], &data);
    assert_eq!(records.len(), 2);
    assert_eq!(records[1].hash, "h2");
    assert_eq!(records[1].embedding, embedding_row(&data, 1));
    assert_eq!(records[1].bytes, embedding_bytes(&records[1].embedding));
    assert_eq!(records[0].bytes.len(), 1536);
    assert_eq!(MODEL_NAME, "legal-learn-v1");
}

#[test]
fn model_comes_in_two_sizes() {
    let full = EmbeddingModelConfig::for_size(false);
    assert_eq!((full.d_model, full.n_layers, full.n_heads, full.d_ff), (384, 6, 6, 1536));
    let small = EmbeddingModelConfig::for_size(true);
    assert_eq!((small.d_model, small.n_layers, small.n_heads, small.d_ff), (128, 2, 4, 512));
    for config in [full, small] {
        assert_eq!(config.vocab_size, VOCAB_SIZE);
        assert!(config.max_seq_len >= MAX_SEQ_LEN);
        assert_eq!(config.d_model % config.n_heads, 0);
        assert_eq!(config.dropout_permille, 100);
    }
    assert_eq!(EmbeddingModelConfig::default(), full);
}

#[test]
fn loss_levels_are_nested() {
    let dims = matryoshka_dims();
    assert_eq!(dims, vec![384, 256, 128, 64]);
    assert_eq!(dims[0], EMBED_DIM);
}
