use std::sync::Arc;

use legal_learn::data::TextPair;
use legal_learn::dataset::{encode_rows, PairBatcher, PairDataset, TokenizedPair};
use legal_learn::stored::describes_known_parts;
use legal_learn::tokenize::{
    can_truncate, encode, encoding_parts, get_tokenizer, has_sound_truncation, load_tokenizer, sample_corpus,
    save_tokenizer, train_tokenizer, TokenizerError, MAX_SEQ_LEN, PAD_ID, PAD_TOKEN, UNK_TOKEN,
    VOCAB_SIZE,
};
use tokenizers::models::bpe::BPE;
use tokenizers::processors::bert::BertProcessing;
use tokenizers::{Tokenizer, TruncationParams};

fn corpus() -> Vec<String> {
    vec![
        "민법 제1조 법원 민사에 관하여 법률에 규정이 없으면 관습법에 의한다".to_string(),
        "민법 제2조 신의성실 권리의 행사와 의무의 이행은 신의에 좇아 성실히 하여야 한다".to_string(),
        "계약의 해제는 상대방에 대한 의사표시로 한다".to_string(),
    ]
}

fn without_vocabulary() -> Tokenizer {
    let model = BPE::builder().unk_token("<unk>".to_string()).build().unwrap();
    Tokenizer::new(model)
}

#[test]
fn small_corpus_is_sampled_whole() {
    assert_eq!(sample_corpus(&corpus()), corpus());
    assert!(sample_corpus(&vec![]).is_empty());
}

#[test]
fn large_corpus_is_sampled_evenly() {
    let documents: Vec<String> = (0..4_500).map(|i| i.to_string()).collect();
    let sample = sample_corpus(&documents);
    assert_eq!(sample.len(), 2_000);
    for (i, text) in sample.iter().enumerate() {
        assert_eq!(text, &(2 * i).to_string());
    }
    let documents: Vec<String> = (0..2_001).map(|i| i.to_string()).collect();
    let sample = sample_corpus(&documents);
    assert_eq!(sample.len(), 2_000);
    assert_eq!(sample[1_999], "1999");
}

#[test]
fn sampled_documents_are_cut_short() {
    let sample = sample_corpus(&vec!["법".repeat(1_500), "법".repeat(1_000), "a".repeat(999)]);
    assert_eq!(sample[0], "법".repeat(1_000));
    assert_eq!(sample[1], "법".repeat(1_000));
    assert_eq!(sample[2], "a".repeat(999));
}

#[test]
fn trained_tokenizer_knows_its_special_tokens() {
    let tokenizer = train_tokenizer(&corpus()).unwrap();
    assert_eq!(tokenizer.token_to_id(PAD_TOKEN), Some(PAD_ID));
    assert_eq!(tokenizer.token_to_id(UNK_TOKEN), Some(1));
    assert!(tokenizer.get_vocab_size(true) <= VOCAB_SIZE);
    assert!(tokenizer.get_vocab_size(true) > 2);
}

#[test]
fn texts_are_encoded_to_one_length() {
    let tokenizer = train_tokenizer(&corpus()).unwrap();
    let long = "민법 ".repeat(1_000);
    for text in ["", "민법", "계약의 해제", "unseen words 123", "😀", long.as_str(), "a [PAD] b"] {
        let (ids, mask) = encode(&tokenizer, text).unwrap();
        assert_eq!(ids.len(), MAX_SEQ_LEN);
        assert_eq!(mask.len(), MAX_SEQ_LEN);
        let tokens = mask.iter().filter(|m| **m).count();
        assert!(mask[..tokens].iter().all(|m| *m));
        assert!(ids[tokens..].iter().all(|id| *id == PAD_ID));
        assert!(ids.iter().all(|id| (*id as usize) < VOCAB_SIZE));
    }
    let (_, mask) = encode(&tokenizer, &long).unwrap();
    assert!(mask.iter().all(|m| *m));
    let (ids, mask) = encode(&tokenizer, "민법").unwrap();
    assert!(mask[0] && ids[0] != PAD_ID);
    assert!(!mask[MAX_SEQ_LEN - 1]);
}

#[test]
fn truncation_keeps_the_front() {
    let tokenizer = train_tokenizer(&corpus()).unwrap();
    let (short, _) = encode(&tokenizer, &"민법 ".repeat(500)).unwrap();
    let (long, _) = encode(&tokenizer, &format!("{}계약", "민법 ".repeat(500))).unwrap();
    assert_eq!(short, long);
}

#[test]
fn tokens_are_bytes_at_the_bottom() {
    let tokenizer = train_tokenizer(&vec!["가".to_string()]).unwrap();
    let (_, mask) = encode(&tokenizer, "가").unwrap();
    assert!(mask.iter().filter(|m| **m).count() >= 1);
    assert!(tokenizer.get_vocab_size(true) > 3);
}

#[test]
fn composed_and_decomposed_text_encode_alike() {
    let tokenizer = train_tokenizer(&corpus()).unwrap();
    assert_eq!(
        encode(&tokenizer, "민법").unwrap(),
        encode(&tokenizer, "\u{1106}\u{1175}\u{11ab}\u{1107}\u{1165}\u{11b8}").unwrap()
    );
}

#[test]
fn empty_corpus_can_be_trained_on() {
    let tokenizer = train_tokenizer(&vec![]).unwrap();
    let (ids, mask) = encode(&tokenizer, "민법").unwrap();
    assert_eq!(ids, vec![PAD_ID; MAX_SEQ_LEN]);
    assert_eq!(mask, vec![false; MAX_SEQ_LEN]);
}

#[test]
fn stored_tokenizer_encodes_alike() {
    let tokenizer = train_tokenizer(&corpus()).unwrap();
    let json = save_tokenizer(&tokenizer).unwrap();
    assert!(json.contains('\n'));
    let back = load_tokenizer(&json).unwrap();
    for text in ["", "민법 제1조", "unseen", "a [UNK] b", "권리의 행사와 의무"] {
        assert_eq!(encode(&back, text).unwrap(), encode(&tokenizer, text).unwrap());
    }
    assert_eq!(save_tokenizer(&back).unwrap(), json);
}

#[test]
fn stored_tokenizer_is_preferred() {
    let json = save_tokenizer(&train_tokenizer(&corpus()).unwrap()).unwrap();
    let loaded = get_tokenizer(Some(&json), &vec!["abc".to_string()]).unwrap();
    assert_eq!(save_tokenizer(&loaded).unwrap(), json);
    let trained = get_tokenizer(None, &vec!["abc".to_string()]).unwrap();
    assert_ne!(save_tokenizer(&trained).unwrap(), json);
}

#[test]
fn broken_store_is_an_error() {
    assert!(matches!(load_tokenizer("{"), Err(TokenizerError::Loading(_))));
    assert!(matches!(load_tokenizer(""), Err(TokenizerError::Loading(_))));
    assert!(matches!(get_tokenizer(Some("[]"), &corpus()), Err(TokenizerError::Loading(_))));
}

fn letters() -> Tokenizer {
    let vocab = [("a".to_string(), 0), ("b".to_string(), 1)];
    let model = BPE::builder().vocab_and_merges(vocab, vec![]).build().unwrap();
    Tokenizer::new(model)
}

#[test]
fn text_that_cannot_be_truncated_is_an_error() {
    let mut tokenizer = letters();
    assert!(has_sound_truncation(&tokenizer));
    tokenizer
        .with_truncation(Some(TruncationParams { max_length: 2, stride: 2, ..Default::default() }))
        .unwrap();
    assert!(!has_sound_truncation(&tokenizer));
    assert!(can_truncate(&tokenizer, "ab"));
    assert!(!can_truncate(&tokenizer, "aba"));
    assert_eq!(encode(&tokenizer, "ab").unwrap().0, vec![0, 1]);
    assert_eq!(encode(&tokenizer, "").unwrap().0, Vec::<u32>::new());
    assert!(matches!(encode(&tokenizer, "aba"), Err(TokenizerError::UnsoundTruncation)));
    tokenizer
        .with_truncation(Some(TruncationParams { max_length: 2, stride: 1, ..Default::default() }))
        .unwrap();
    assert!(has_sound_truncation(&tokenizer));
    assert_eq!(encode(&tokenizer, "aba").unwrap().0, vec![0, 1]);
    tokenizer
        .with_truncation(Some(TruncationParams { max_length: 0, stride: 0, ..Default::default() }))
        .unwrap();
    assert!(has_sound_truncation(&tokenizer));
    assert!(encode(&tokenizer, "abc").is_ok());
}

#[test]
fn added_tokens_take_room_from_the_text() {
    let mut tokenizer = letters();
    tokenizer.with_post_processor(Some(BertProcessing::new(
        ("[SEP]".to_string(), 8),
        ("[CLS]".to_string(), 9),
    )));
    tokenizer
        .with_truncation(Some(TruncationParams { max_length: 4, stride: 2, ..Default::default() }))
        .unwrap();
    assert!(!has_sound_truncation(&tokenizer));
    assert_eq!(encode(&tokenizer, "ab").unwrap().0, vec![9, 0, 1, 8]);
    assert!(matches!(encode(&tokenizer, "aba"), Err(TokenizerError::UnsoundTruncation)));
}

fn with_dropout(dropout: f32) -> Tokenizer {
    let vocab = [("a".to_string(), 0), ("b".to_string(), 1), ("ab".to_string(), 2)];
    let merges = vec![("a".to_string(), "b".to_string())];
    let model = BPE::builder().vocab_and_merges(vocab, merges).dropout(dropout).build().unwrap();
    let mut tokenizer = Tokenizer::new(model);
    assert!(encode(&tokenizer, "abab").is_ok());
    tokenizer
        .with_truncation(Some(TruncationParams { max_length: 2, stride: 2, ..Default::default() }))
        .unwrap();
    tokenizer
}

#[test]
fn random_merges_may_all_be_left_out() {
    let tokenizer = with_dropout(0.5);
    assert_eq!(encode(&tokenizer, "a").unwrap().0, vec![0]);
    assert_eq!(encode(&tokenizer, "ba").unwrap().0, vec![1, 0]);
    let (ids, _) = encode(&tokenizer, "ab").unwrap();
    assert!(ids == vec![2] || ids == vec![0, 1]);
    for _ in 0..20 {
        assert!(matches!(encode(&tokenizer, "aba"), Err(TokenizerError::UnsoundTruncation)));
    }
}

#[test]
fn dropout_of_zero_leaves_nothing_to_chance() {
    let tokenizer = with_dropout(0.0);
    assert_eq!(encode(&tokenizer, "abab").unwrap().0, vec![2, 2]);
    assert!(matches!(encode(&tokenizer, "ababab"), Err(TokenizerError::UnsoundTruncation)));
    let tokenizer = with_dropout(-0.0);
    assert_eq!(encode(&tokenizer, "aba").unwrap().0, vec![2, 0]);
}

#[test]
fn encoding_is_the_front_of_the_tokens() {
    let tokenizer = train_tokenizer(&corpus()).unwrap();
    let mut bare = tokenizer.clone();
    bare.with_truncation(None).unwrap();
    bare.with_padding(None);
    for text in ["민법 제1조".to_string(), "민법 제2조 신의성실 ".repeat(100)] {
        let tokens = bare.encode(text.as_str(), true).unwrap().get_ids().to_vec();
        let (ids, mask) = encode(&tokenizer, &text).unwrap();
        for i in 0..MAX_SEQ_LEN {
            assert_eq!(mask[i], i < tokens.len());
            assert_eq!(ids[i], if i < tokens.len() { tokens[i] } else { PAD_ID });
        }
    }
}

#[test]
fn training_twice_starts_anew() {
    let first = train_tokenizer(&vec!["가나다".to_string()]).unwrap();
    let (_, before) = encode(&first, "민법").unwrap();
    let second = train_tokenizer(&corpus()).unwrap();
    let (_, after) = encode(&second, "민법").unwrap();
    assert!(after.iter().filter(|m| **m).count() > 0);
    assert_eq!(encode(&first, "민법").unwrap().1, before);
}

fn described(model: &str, normalizer: &str, pre_tokenizer: &str, post_processor: &str) -> String {
    format!(
        r#"{{"version":"1.0","truncation":null,"padding":null,"added_tokens":[],
        "normalizer":{normalizer},"pre_tokenizer":{pre_tokenizer},
        "post_processor":{post_processor},"decoder":null,"model":{model}}}"#
    )
}

fn merges(prefix: &str, merges: &str) -> String {
    let model = format!(
        r#"{{"type":"BPE","continuing_subword_prefix":{prefix},
        "vocab":{{"a":0,"b":1,"ab":2,"@@b":3,"가":4,"a가":5,"aa":6}},"merges":{merges}}}"#
    );
    described(&model, "null", "null", "null")
}

#[test]
fn merges_that_the_prefix_cannot_be_taken_off_are_refused() {
    assert!(load_tokenizer(&merges("null", r#"[["a","b"]]"#)).is_ok());
    assert!(load_tokenizer(&merges("null", r#"["a b"]"#)).is_ok());
    assert!(load_tokenizer(&merges(r#""@@""#, r#"[["a","@@b"]]"#)).is_ok());
    assert!(load_tokenizer(&merges(r#""@@""#, r#"["a @@b"]"#)).is_ok());
    assert!(load_tokenizer(&merges(r#""@@""#, r##"["#version: 0", "a @@b"]"##)).is_ok());
    assert!(load_tokenizer(&merges(r#""@@""#, r##"["#version 가", "a @@b"]"##)).is_ok());
    for broken in [
        merges(r#""@@""#, r#"[["a","b"]]"#),
        merges(r#""@@""#, r#"["a b"]"#),
        merges(r#""@""#, r#"[["a","가"]]"#),
        merges("null", r#"[["a","c"]]"#),
        merges("null", r#"["abc"]"#),
    ] {
        assert!(matches!(load_tokenizer(&broken), Err(TokenizerError::Loading(_))), "{broken}");
    }
}

#[test]
fn broken_character_maps_are_refused() {
    let model = r#"{"type":"BPE","vocab":{"a":0},"merges":[]}"#;
    for normalizer in [
        r#"{"type":"Precompiled","precompiled_charsmap":"AAAA"}"#,
        r#"{"type":"Precompiled","precompiled_charsmap":"AAAAAQ=="}"#,
        r#"{"type":"Precompiled","precompiled_charsmap":"/////w=="}"#,
        r#"{"type":"Precompiled","precompiled_charsmap":"BAAAAA=="}"#,
        r#"{"type":"Precompiled","precompiled_charsmap":1}"#,
        r#"{"type":"Precompiled"}"#,
        r#"{"type":{"Precompiled":null}}"#,
        r#"[[{"type":"Precompiled"}]]"#,
        r#"{"type":"Sequence","normalizers":[{"type":"NFC"},{"type":"Precompiled"}]}"#,
    ] {
        let json = described(model, normalizer, "null", "null");
        assert!(matches!(load_tokenizer(&json), Err(TokenizerError::Loading(_))), "{json}");
    }
    let nested = r#"{"type":"Sequence","normalizers":[{"type":"NFC"},{"type":"Lowercase"}]}"#;
    assert!(load_tokenizer(&described(model, nested, "null", "null")).is_ok());
}

#[test]
fn character_maps_are_read() {
    let model = r#"{"type":"BPE","vocab":{"a":0},"merges":[]}"#;
    for normalizer in [
        r#"{"type":"Precompiled","precompiled_charsmap":"BAAAAAAAAAA="}"#,
        r#"{"type":"Precompiled","precompiled_charsmap":"AAAAAA=="}"#,
        r#"{"type":"Sequence","normalizers":[{"type":"Precompiled","precompiled_charsmap":"BAAAAAAAAAA="}]}"#,
    ] {
        let json = described(model, normalizer, "null", "null");
        assert!(load_tokenizer(&json).is_ok(), "{json}");
        assert!(!describes_known_parts(&json));
    }
}

#[test]
fn patterns_with_large_counts_are_refused() {
    let model = r#"{"type":"BPE","vocab":{"a":0},"merges":[]}"#;
    let split = |pattern: &str| {
        format!(
            r#"{{"type":"Split","pattern":{pattern},"behavior":"Isolated","invert":false}}"#
        )
    };
    for (pattern, is_read) in [
        (r#"{"Regex":"\\p{N}{1,3}|\\s+"}"#, true),
        (r#"{"Regex":"(?:a{99999}){9999}"}"#, false),
        (r#"{"Regex":"("}"#, false),
        (r#"{"String":"1234567890"}"#, true),
    ] {
        let part = split(pattern);
        let nested = format!(r#"{{"type":"Sequence","pretokenizers":[{part}]}}"#);
        for part in [part, nested] {
            let json = described(model, "null", &part, "null");
            assert_eq!(load_tokenizer(&json).is_ok(), is_read, "{json}");
        }
    }
}

#[test]
fn added_tokens_are_normalized_with_care() {
    let model = r#"{"type":"BPE","vocab":{"a":0},"merges":[]}"#;
    let token = |normalized: bool| {
        format!(
            r#""added_tokens":[{{"id":0,"content":"a","single_word":false,"lstrip":false,
            "rstrip":false,"normalized":{normalized},"special":false}}]"#
        )
    };
    let with_token = |normalizer: &str, normalized: bool| {
        described(model, normalizer, "null", "null")
            .replace(r#""added_tokens":[]"#, &token(normalized))
    };
    let risky = r#"{"type":"Sequence","normalizers":[{"type":"Replace","pattern":{"Regex":"^"},
        "content":"x"},{"type":"Lowercase"}]}"#;
    assert!(matches!(load_tokenizer(&with_token(risky, true)), Err(TokenizerError::Loading(_))));
    assert!(load_tokenizer(&with_token(risky, false)).is_ok());
    for normalizer in ["null", r#"{"type":"NFC"}"#, r#"{"type":"Lowercase"}"#] {
        assert!(load_tokenizer(&with_token(normalizer, true)).is_ok());
    }
}

#[test]
fn parts_that_are_always_applied_are_known() {
    let model = r#"{"type":"BPE","vocab":{"a":0},"merges":[]}"#;
    let null = "null";
    let words = r#"{"type":"Whitespace"}"#;
    let json = described(model, r#"{"type":"NFC"}"#, words, null);
    assert!(describes_known_parts(&json));
    assert_eq!(encode(&load_tokenizer(&json).unwrap(), "a a").unwrap().0, vec![0, 0]);
    let fixed = r#"{"type":"FixedLength","length":0}"#;
    assert!(!describes_known_parts(&described(model, null, fixed, null)));
    let template = r#"{"type":"TemplateProcessing","single":[{"SpecialToken":{"id":"x","type_id":0}}],"pair":[],"special_tokens":{}}"#;
    let json = described(model, null, null, template);
    assert!(!describes_known_parts(&json));
    assert!(load_tokenizer(&json).is_ok());
    assert!(!describes_known_parts(&described(r#"{"type":"Unigram"}"#, null, null, null)));
    assert!(!describes_known_parts("{"));
    assert!(!describes_known_parts("{}"));
}

#[test]
fn padding_and_added_tokens_are_looked_at() {
    let json = save_tokenizer(&train_tokenizer(&corpus()).unwrap()).unwrap();
    assert!(describes_known_parts(&json));
    assert!(!describes_known_parts(&json.replace(r#""Fixed": 128"#, r#""Fixed": 1000001"#)));
    assert!(!describes_known_parts(&json.replacen(r#""lstrip": false"#, r#""lstrip": true"#, 1)));
    assert!(!describes_known_parts(
        &json.replace(r#""pad_to_multiple_of": null"#, r#""pad_to_multiple_of": 8"#)
    ));
}

#[test]
fn text_that_cannot_be_encoded_is_an_error() {
    assert!(matches!(encode(&without_vocabulary(), "a"), Err(TokenizerError::Encoding(_))));
    assert!(encode(&without_vocabulary(), "").is_ok());
}

#[test]
fn only_ones_count_in_an_attention_mask() {
    let (ids, mask) = encoding_parts(vec![5, 6, 7], &vec![1, 0, 2]);
    assert_eq!(ids, vec![5, 6, 7]);
    assert_eq!(mask, vec![true, false, false]);
}

#[test]
fn dataset_tokenizes_on_demand() {
    let tokenizer = Arc::new(train_tokenizer(&corpus()).unwrap());
    let pairs = vec![
        TextPair { anchor: "민법".to_string(), positive: "제1조".to_string() },
        TextPair { anchor: "계약".to_string(), positive: "해제".to_string() },
    ];
    let dataset = PairDataset::new(pairs, tokenizer.clone());
    assert_eq!(dataset.len(), 2);
    let item = dataset.get(1).unwrap().unwrap();
    assert!(item.is_common_length());
    let (ids, mask) = encode(&tokenizer, "계약").unwrap();
    assert_eq!((item.anchor_ids, item.anchor_mask), (ids, mask));
    let (ids, mask) = encode(&tokenizer, "해제").unwrap();
    assert_eq!((item.positive_ids, item.positive_mask), (ids, mask));
    assert!(dataset.get(2).unwrap().is_none());
}

#[test]
fn dataset_reports_what_cannot_be_encoded() {
    let pairs = vec![TextPair { anchor: "a".to_string(), positive: "b".to_string() }];
    let dataset = PairDataset::new(pairs, Arc::new(without_vocabulary()));
    assert!(matches!(dataset.get(0), Err(TokenizerError::Encoding(_))));
    assert!(dataset.get(1).unwrap().is_none());
}

fn item(first: u32) -> TokenizedPair {
    TokenizedPair {
        anchor_ids: (0..MAX_SEQ_LEN as u32).map(|i| first + i).collect(),
        anchor_mask: vec![true; MAX_SEQ_LEN],
        positive_ids: vec![first; MAX_SEQ_LEN],
        positive_mask: vec![false; MAX_SEQ_LEN],
    }
}

#[test]
fn batch_is_row_major() {
    let batch = PairBatcher::new().batch(&vec![item(1_000), item(u32::MAX - 200)]);
    assert_eq!(batch.batch_size, 2);
    assert_eq!(batch.anchor_ids.len(), 2 * MAX_SEQ_LEN);
    for column in 0..MAX_SEQ_LEN {
        assert_eq!(batch.anchor_ids[column], 1_000 + column as i64);
        assert_eq!(batch.anchor_ids[MAX_SEQ_LEN + column], 4_294_967_095 + column as i64);
    }
    assert_eq!(batch.positive_ids[MAX_SEQ_LEN], 4_294_967_095);
    assert!(batch.anchor_mask.iter().all(|m| *m));
    assert!(!batch.positive_mask.iter().any(|m| *m));
    assert_eq!(PairBatcher::new().batch(&vec![]).batch_size, 0);
}

#[test]
fn uneven_items_are_told_apart() {
    let mut uneven = item(1);
    assert!(uneven.is_common_length());
    uneven.positive_mask.pop();
    assert!(!uneven.is_common_length());
}

#[test]
fn rows_of_texts_are_those_of_each() {
    let tokenizer = train_tokenizer(&corpus()).unwrap();
    let batch = encode_rows(&tokenizer, &vec!["민법", "계약"]).unwrap();
    assert_eq!(batch.rows, 2);
    let (ids, mask) = encode(&tokenizer, "계약").unwrap();
    let widened: Vec<i64> = ids.iter().map(|id| *id as i64).collect();
    assert_eq!(batch.ids[MAX_SEQ_LEN..], widened[..]);
    assert_eq!(batch.mask[MAX_SEQ_LEN..], mask[..]);
    assert_eq!(encode_rows(&tokenizer, &vec![]).unwrap().rows, 0);
}

#[test]
fn rows_must_have_the_common_length() {
    let tokenizer = Tokenizer::new(BPE::default());
    assert!(matches!(encode_rows(&tokenizer, &vec!["a"]), Err(TokenizerError::Length)));
    assert!(encode_rows(&tokenizer, &vec![]).is_ok());
    assert!(matches!(
        encode_rows(&without_vocabulary(), &vec!["a"]),
        Err(TokenizerError::Encoding(_))
    ));
}
