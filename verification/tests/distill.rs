use legal_learn::data::TextPair;
use legal_learn::dataset::encode_rows;
use legal_learn::distill::{
    collect_embeddings, default_teacher_model, distill_batch, llama_arguments,
    parse_embeddings, teacher_dim, teacher_prompt, unique_texts, TeacherConfig, TeacherError,
    TeacherRun, TeacherSample, DEFAULT_TEACHER_MODEL,
};
use legal_learn::model::EMBED_DIM;
use legal_learn::tokenize::{train_tokenizer, TokenizerError};
use tokenizers::models::bpe::BPE;
use tokenizers::Tokenizer;

fn pair(anchor: &str, positive: &str) -> TextPair {
    TextPair { anchor: anchor.to_string(), positive: positive.to_string() }
}

fn strings(texts: &[&str]) -> Vec<String> {
    texts.iter().map(|t| t.to_string()).collect()
}

fn config(batch_size: usize) -> TeacherConfig {
    TeacherConfig {
        db_path: "data.db".to_string(),
        output_path: "out.jsonl".to_string(),
        model_path: "m.gguf".to_string(),
        batch_size,
        limit: None,
    }
}

fn sample(text: &str, embedding: Vec<u32>) -> TeacherSample {
    TeacherSample { text: text.to_string(), embedding }
}

#[test]
fn teacher_has_a_default() {
    assert_eq!(default_teacher_model(), DEFAULT_TEACHER_MODEL);
    assert!(default_teacher_model().ends_with("embeddinggemma-300M-qat-Q4_0.gguf"));
}

#[test]
fn texts_are_asked_about_once() {
    let pairs = vec![
        pair("나", "가"),
        pair("b", "a"),
        pair("a", "가나"),
        pair("", "a"),
        pair("😀", "\u{ffff}"),
        pair("가", "나"),
    ];
    let mut expected: Vec<String> =
        pairs.iter().flat_map(|p| [p.anchor.clone(), p.positive.clone()]).collect();
    expected.sort();
    expected.dedup();
    assert_eq!(unique_texts(&pairs), expected);
    assert_eq!(expected, strings(&["", "a", "b", "가", "가나", "나", "\u{ffff}", "😀"]));
    assert!(unique_texts(&vec![]).is_empty());
}

#[test]
fn prompt_separates_the_texts() {
    let texts = strings(&["가", "b", "", "d"]);
    assert_eq!(teacher_prompt(&texts, 0, 4), "가<#sep#>b<#sep#><#sep#>d");
    assert_eq!(teacher_prompt(&texts, 1, 2), "b");
    assert_eq!(teacher_prompt(&texts, 2, 4), "<#sep#>d");
    assert_eq!(teacher_prompt(&texts, 2, 2), "");
}

#[test]
fn prompt_shows_the_front_of_long_texts() {
    let texts = vec!["법".repeat(600), "법".repeat(512)];
    assert_eq!(
        teacher_prompt(&texts, 0, 2),
        format!("{}<#sep#>{}", "법".repeat(512), "법".repeat(512))
    );
}

#[test]
fn arguments_ask_for_normalized_json() {
    let args = llama_arguments("m.gguf", &strings(&["a", "b"]), 0, 2);
    assert_eq!(
        args,
        strings(&[
            "--model", "m.gguf", "--pooling", "mean", "--embd-normalize", "2",
            "--embd-output-format", "json", "--embd-separator", "<#sep#>", "--prompt",
            "a<#sep#>b", "--log-disable",
        ])
    );
}

#[test]
fn answer_is_read() {
    let json = r#"[
        {"index": 0, "embedding": [0.5, -1, 3, 2.5e-3]},
        {"embedding": []}
    ]"#;
    let embeddings = parse_embeddings(json).unwrap();
    let expected = vec![
        vec![0.5_f64.to_bits(), (-1.0_f64).to_bits(), 3.0_f64.to_bits(), 2.5e-3_f64.to_bits()],
        vec![],
    ];
    assert_eq!(embeddings, expected);
    assert!(parse_embeddings(" [] ").unwrap().is_empty());
}

#[test]
fn values_that_are_no_numbers_are_left_out() {
    let json = r#"[{"embedding": [1.0, "x", null, [2], true, 4]}]"#;
    assert_eq!(
        parse_embeddings(json).unwrap(),
        vec![vec![1.0_f64.to_bits(), 4.0_f64.to_bits()]]
    );
}

#[test]
fn answer_that_is_no_array_is_an_error() {
    for json in ["", "{", r#"{"embedding": [1]}"#, "[1", "[] []", "null"] {
        assert!(matches!(parse_embeddings(json), Err(TeacherError::Malformed(_))), "{json}");
    }
}

#[test]
fn entry_without_an_embedding_is_an_error() {
    for json in [
        r#"[{"embedding": [1]}, {"other": [1]}]"#,
        r#"[{"embedding": 1}]"#,
        r#"[{"embedding": {"0": 1}}]"#,
        "[[1]]",
        "[1]",
    ] {
        assert!(matches!(parse_embeddings(json), Err(TeacherError::MissingEmbedding)), "{json}");
    }
}

#[test]
fn entries_are_collected() {
    assert_eq!(
        collect_embeddings(&vec![Some(vec![Some(7), None, Some(8)]), Some(vec![])]).unwrap(),
        vec![vec![7, 8], vec![]]
    );
    assert!(matches!(
        collect_embeddings(&vec![Some(vec![]), None]),
        Err(TeacherError::MissingEmbedding)
    ));
}

#[test]
fn answer_must_have_an_embedding_for_each_text() {
    let pairs = vec![pair("b", "a"), pair("c", "a")];
    let mut run = TeacherRun::start(&pairs, &config(2));
    assert!(matches!(
        run.accept(vec![vec![1]]),
        Err(TeacherError::Count { texts: 2, embeddings: 1 })
    ));
    assert!(matches!(
        run.accept(vec![vec![1], vec![2], vec![3]]),
        Err(TeacherError::Count { texts: 2, embeddings: 3 })
    ));
    assert_eq!(run.next_arguments().unwrap()[11], "a<#sep#>b");
    run.accept(vec![vec![1], vec![2]]).unwrap();
    assert!(matches!(run.accept(vec![]), Err(TeacherError::Count { texts: 1, embeddings: 0 })));
    run.accept(vec![vec![3, 4]]).unwrap();
    assert!(run.next_arguments().is_none());
    let samples = run.into_samples();
    let found: Vec<(&str, &[u32])> =
        samples.iter().map(|s| (s.text.as_str(), s.embedding.as_slice())).collect();
    let expected: Vec<(&str, &[u32])> = vec![("a", &[1]), ("b", &[2]), ("c", &[3, 4])];
    assert_eq!(found, expected);
}

#[test]
fn run_goes_through_every_text() {
    let pairs = vec![pair("e", "d"), pair("c", "b"), pair("a", "b")];
    let mut run = TeacherRun::start(&pairs, &config(2));
    assert_eq!(run.total(), 5);
    let mut prompts = Vec::new();
    let mut next = 0;
    while let Some(args) = run.next_arguments() {
        assert_eq!(args[1], "m.gguf");
        let prompt = args[11].clone();
        let count = prompt.split("<#sep#>").count();
        prompts.push(prompt);
        run.accept((0..count).map(|i| vec![next + i as u32]).collect()).unwrap();
        next += count as u32;
    }
    assert_eq!(prompts, strings(&["a<#sep#>b", "c<#sep#>d", "e"]));
    let samples = run.into_samples();
    let texts: Vec<&str> = samples.iter().map(|s| s.text.as_str()).collect();
    assert_eq!(texts, vec!["a", "b", "c", "d", "e"]);
    for (i, s) in samples.iter().enumerate() {
        assert_eq!(s.embedding, vec![i as u32]);
    }
}

#[test]
fn run_without_pairs_has_nothing_to_ask() {
    let run = TeacherRun::start(&vec![], &config(8));
    assert!(run.next_arguments().is_none());
    assert!(run.into_samples().is_empty());
}

#[test]
fn dimension_is_that_of_the_first_sample() {
    assert_eq!(teacher_dim(&vec![]), 384);
    assert_eq!(teacher_dim(&vec![sample("a", vec![0; 768]), sample("b", vec![])]), 768);
}

#[test]
fn targets_fit_the_student() {
    let tokenizer = train_tokenizer(&strings(&["민법 제1조"])).unwrap();
    let wide: Vec<u32> = (0..768).collect();
    let samples =
        vec![sample("skipped", vec![]), sample("민법", wide), sample("제1조", vec![5, 6])];
    let batch = distill_batch(&tokenizer, &samples, 1, 3).unwrap();
    assert_eq!(batch.targets.len(), 2 * EMBED_DIM);
    assert_eq!(batch.targets[..EMBED_DIM], (0..384).collect::<Vec<u32>>()[..]);
    assert_eq!(batch.targets[EMBED_DIM..EMBED_DIM + 3], [5, 6, 0]);
    assert!(batch.targets[EMBED_DIM + 2..].iter().all(|t| *t == 0));
    let tokens = encode_rows(&tokenizer, &vec!["민법", "제1조"]).unwrap();
    assert_eq!(batch.tokens.rows, 2);
    assert_eq!(batch.tokens.ids, tokens.ids);
    assert_eq!(batch.tokens.mask, tokens.mask);
}

#[test]
fn distillation_needs_texts_of_the_common_length() {
    let samples = vec![sample("a", vec![])];
    let tokenizer = Tokenizer::new(BPE::default());
    assert!(matches!(distill_batch(&tokenizer, &samples, 0, 1), Err(TokenizerError::Length)));
    assert_eq!(distill_batch(&tokenizer, &samples, 1, 1).unwrap().tokens.rows, 0);
}
