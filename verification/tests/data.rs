use legal_learn::data::{
    count_active_documents_sql, extract_frontmatter_field, extract_law_pairs,
    extract_precedent_pair, extract_section, inspect_corpus, load_law_pairs, load_pairs,
    load_pairs_limited, load_precedent_pairs, Collection, CorpusStats, PairLoader, TextPair,
};

const SUMMARY: &str = "계약의 해제는 상대방에 대한 의사표시로 한다";

fn precedent(number: usize) -> String {
    format!("---\n사건명: 손해배상 {number}\n---\n## 판결요지\n{SUMMARY} {number}\n## 참조조문\n민법 제{number}조\n")
}

fn law(number: usize) -> String {
    format!(
        "---\n제목: 법률 {number}\n---\n# 법률\n##### 제1조 (목적)\n이 법은 국민의 권리를 보호함을 목적으로 한다.\n##### 제2조 (정의)\n이 법에서 사용하는 용어의 뜻은 다음과 같다.\n"
    )
}

fn texts(pairs: &[TextPair]) -> Vec<(String, String)> {
    pairs.iter().map(|p| (p.anchor.clone(), p.positive.clone())).collect()
}

fn pair(anchor: &str, positive: &str) -> (String, String) {
    (anchor.to_string(), positive.to_string())
}

#[test]
fn section_ends_at_the_next_heading() {
    let doc = "# 제목\n## 판결요지\n\n  첫째 줄\n둘째 줄 \n\n## 참조조문\n민법 제1조";
    assert_eq!(extract_section(doc, "판결요지").unwrap(), "첫째 줄\n둘째 줄");
    assert_eq!(extract_section(doc, "참조조문").unwrap(), "민법 제1조");
    assert!(extract_section(doc, "주문").is_none());
}

#[test]
fn section_keeps_deeper_headings() {
    let doc = "## 판결요지\n가\n### 나\n다\n## 끝";
    assert_eq!(extract_section(doc, "판결요지").unwrap(), "가\n### 나\n다");
}

#[test]
fn section_that_is_blank_is_none() {
    assert!(extract_section("## 판결요지\n \n## 참조조문\n가", "판결요지").is_none());
    assert!(extract_section("## 판결요지", "판결요지").is_none());
}

#[test]
fn section_heading_is_a_whole_line() {
    let doc = "## 참조조문목록\nA\n## 참조조문\nB\n";
    assert_eq!(extract_section(doc, "참조조문").unwrap(), "B");
    assert_eq!(extract_section(doc, "참조조문목록").unwrap(), "A");
    assert!(extract_section("### 판결요지\n가나", "판결요지").is_none());
    assert!(extract_section("본문 ## 판결요지\n가나", "판결요지").is_none());
    assert!(extract_section("## 판결요지 없음\n가나", "판결요지").is_none());
    assert_eq!(extract_section("가\n## 판결요지 \t\r\n나", "판결요지").unwrap(), "나");
    assert_eq!(extract_section("## 판결요지\n나", "판결요지").unwrap(), "나");
    assert!(extract_section("", "판결요지").is_none());
}

#[test]
fn section_heading_may_be_indented() {
    for indent in ["", " ", "  ", "   "] {
        let doc = format!("가\n{indent}## 판결요지\n나\n## 참조조문\n다");
        assert_eq!(extract_section(&doc, "판결요지").unwrap(), "나");
        let first = format!("{indent}## 판결요지\n나");
        assert_eq!(extract_section(&first, "판결요지").unwrap(), "나");
    }
    assert!(extract_section("가\n    ## 판결요지\n나", "판결요지").is_none());
    assert!(extract_section("가\n\t## 판결요지\n나", "판결요지").is_none());
    assert!(extract_section("가 ## 판결요지\n나", "판결요지").is_none());
}

#[test]
fn frontmatter_field_is_read() {
    let doc = "---\n사건번호: 1\n  사건명:: 손해배상 \n---\n사건명: 본문";
    assert_eq!(extract_frontmatter_field(doc, "사건명").unwrap(), "손해배상");
    assert_eq!(extract_frontmatter_field(doc, "사건번호").unwrap(), "1");
    assert!(extract_frontmatter_field(doc, "제목").is_none());
}

#[test]
fn frontmatter_needs_both_fences() {
    assert!(extract_frontmatter_field("사건명: 가", "사건명").is_none());
    assert!(extract_frontmatter_field("---\n사건명: 가", "사건명").is_none());
    assert!(extract_frontmatter_field("--", "사건명").is_none());
}

#[test]
fn frontmatter_passes_over_empty_values() {
    let doc = "---\n제목:\n제목: 민법\n---\n";
    assert_eq!(extract_frontmatter_field(doc, "제목").unwrap(), "민법");
}

#[test]
fn frontmatter_field_has_its_whole_name() {
    let doc = "---\n제목영문: Civil Act\n제목: 민법\n---\n";
    assert_eq!(extract_frontmatter_field(doc, "제목").unwrap(), "민법");
    assert_eq!(extract_frontmatter_field(doc, "제목영문").unwrap(), "Civil Act");
    assert!(extract_frontmatter_field("---\n제목 민법\n---\n", "제목").is_none());
    assert_eq!(extract_frontmatter_field("---\n제목 : 민법\n---\n", "제목").unwrap(), "민법");
    assert_eq!(extract_frontmatter_field("---\n제목\t:민법\n---\n", "제목").unwrap(), "민법");
    assert!(extract_frontmatter_field("---\n제목 :\n---\n", "제목").is_none());
    assert!(extract_frontmatter_field("---\n제목\n---\n", "제목").is_none());
}

#[test]
fn text_behind_the_frontmatter_is_ignored() {
    for front in ["---\n제목: 민법\n---\n", "---\n번호: 1\n---\n", "---\n제목: A---B\n---\n본문"] {
        let title = extract_frontmatter_field(front, "제목");
        for behind in ["", "제목: 상법\n", "\n---\n제목: 형법\n---\n", "---"] {
            assert_eq!(extract_frontmatter_field(&format!("{front}{behind}"), "제목"), title);
        }
    }
    assert!(extract_frontmatter_field("---\n제목: 민법\n---x\n", "제목").is_none());
}

#[test]
fn frontmatter_ends_at_its_closing_line() {
    let doc = "---\n제목: A---B\n---\n사건명: 본문\n";
    assert_eq!(extract_frontmatter_field(doc, "제목").unwrap(), "A---B");
    assert!(extract_frontmatter_field(doc, "사건명").is_none());
    assert!(extract_frontmatter_field("---\n제목: A---\n", "제목").is_none());
    assert_eq!(extract_frontmatter_field("---\r\n제목: A\r\n--- \r\n", "제목").unwrap(), "A");
    assert!(extract_frontmatter_field("---\n제목: A\n----\n", "제목").is_none());
    assert!(extract_frontmatter_field("------\n제목: A\n---\n", "제목").is_none());
}

#[test]
fn precedent_prefers_the_cited_statutes() {
    let found = extract_precedent_pair(&precedent(7)).unwrap();
    assert_eq!(found.anchor, format!("{SUMMARY} 7"));
    assert_eq!(found.positive, "민법 제7조");
}

#[test]
fn precedent_falls_back_to_the_case_name() {
    let doc = format!("---\n사건명: 손해배상\n---\n## 판결요지\n{SUMMARY}\n");
    assert_eq!(extract_precedent_pair(&doc).unwrap().positive, "손해배상");
    let neither = format!("## 판결요지\n{SUMMARY}\n");
    assert!(extract_precedent_pair(&neither).is_none());
}

#[test]
fn precedent_lengths_are_bytes() {
    // Six syllables are eighteen bytes, and seven are twenty-one.
    assert!(extract_precedent_pair("## 판결요지\n가나다라마바\n## 참조조문\n민법").is_none());
    assert!(extract_precedent_pair("## 판결요지\n가나다라마바사\n## 참조조문\n민법").is_some());
    assert!(extract_precedent_pair("## 판결요지\n12345678901234567890\n## 참조조문\n1234").is_none());
    assert!(extract_precedent_pair("## 판결요지\n12345678901234567890\n## 참조조문\n12345").is_some());
    assert!(extract_precedent_pair("## 판결요지\n1234567890123456789\n## 참조조문\n12345").is_none());
}

#[test]
fn precedent_texts_are_quoted_from_the_document() {
    let doc = precedent(3);
    let found = extract_precedent_pair(&doc).unwrap();
    assert!(doc.contains(&found.anchor));
    assert!(doc.contains(&found.positive));
}

#[test]
fn law_articles_give_two_pairs_each() {
    let body_1 = "이 법은 국민의 권리를 보호함을 목적으로 한다.";
    let body_2 = "이 법에서 사용하는 용어의 뜻은 다음과 같다.";
    assert_eq!(
        texts(&extract_law_pairs(&law(1))),
        vec![
            pair("제1조 (목적)", body_1),
            pair("법률 1", "제1조 (목적)"),
            pair("제2조 (정의)", body_2),
            pair("법률 1", "제2조 (정의)"),
        ]
    );
}

#[test]
fn law_without_a_title_gives_one_pair_per_article() {
    let doc = "##### 제1조 (목적)\n이 법은 국민의 권리를 보호한다.\n";
    assert_eq!(
        texts(&extract_law_pairs(doc)),
        vec![pair("제1조 (목적)", "이 법은 국민의 권리를 보호한다.")]
    );
}

#[test]
fn law_body_joins_lines_and_stops_at_any_heading() {
    let doc = "  ##### 제1조 (목적)  \n\n 첫째 항목의 내용 \n\n둘째 항목의 내용\n  # 부칙\n셋째\n";
    assert_eq!(
        texts(&extract_law_pairs(doc)),
        vec![pair("제1조 (목적)", "첫째 항목의 내용 둘째 항목의 내용")]
    );
}

#[test]
fn law_skips_what_is_no_article() {
    assert!(extract_law_pairs("#### 제1조 (목적)\n이 법은 국민의 권리를 보호한다.").is_empty());
    assert!(extract_law_pairs("##### 제1장 총칙\n이 법은 국민의 권리를 보호한다.").is_empty());
    assert!(extract_law_pairs("##### 제1조 (목적)\n짧다").is_empty());
    assert!(extract_law_pairs("").is_empty());
}

#[test]
fn law_article_may_follow_a_short_one() {
    let doc = "##### 제1조 삭제\n##### 제2조 (정의)\n이 법에서 사용하는 용어의 뜻은 다음과 같다.";
    assert_eq!(extract_law_pairs(doc).len(), 1);
}

#[test]
fn pairs_come_from_precedents_and_then_from_laws() {
    let precedents = vec![precedent(1), "없음".to_string(), precedent(2)];
    let laws = vec![law(1)];
    let all = texts(&load_pairs(&precedents, &laws));
    assert_eq!(all.len(), 6);
    assert_eq!(all[0].1, "민법 제1조");
    assert_eq!(all[1].1, "민법 제2조");
    assert_eq!(all[2].0, "제1조 (목적)");
    assert_eq!(texts(&load_pairs_limited(&precedents, &laws, None)), all);
}

#[test]
fn limit_gives_a_prefix_and_is_a_cap() {
    let precedents: Vec<String> = (1..=3).map(precedent).collect();
    let laws: Vec<String> = (1..=3).map(law).collect();
    let all = texts(&load_pairs(&precedents, &laws));
    assert_eq!(all.len(), 15);
    for limit in 0..20 {
        let some = texts(&load_pairs_limited(&precedents, &laws, Some(limit)));
        assert_eq!(some.len(), limit.min(15));
        assert_eq!(some, all[..some.len()]);
    }
    assert!(load_pairs_limited(&precedents, &laws, Some(0)).is_empty());
    assert_eq!(load_pairs_limited(&vec![precedent(1)], &vec![law(1)], Some(5)).len(), 5);
    assert_eq!(load_pairs_limited(&vec![], &laws, Some(5)).len(), 5);
}

#[test]
fn smaller_limit_gives_a_prefix() {
    let precedents: Vec<String> = (1..=3).map(precedent).collect();
    let laws: Vec<String> = (1..=3).map(law).collect();
    for larger in 0..17 {
        let many = texts(&load_pairs_limited(&precedents, &laws, Some(larger)));
        for smaller in 0..=larger {
            let few = texts(&load_pairs_limited(&precedents, &laws, Some(smaller)));
            assert_eq!(few, many[..few.len()]);
        }
    }
}

#[test]
fn loader_takes_one_document_at_a_time() {
    let mut loader = PairLoader::start(Some(4));
    assert_eq!(loader.wanted(), Some(Collection::Precedents));
    loader.accept("없음");
    loader.accept(&precedent(1));
    assert_eq!(loader.wanted(), Some(Collection::Precedents));
    loader.finish_collection();
    assert_eq!(loader.wanted(), Some(Collection::Laws));
    assert!(!loader.is_full());
    loader.accept(&law(1));
    assert!(loader.is_full());
    assert_eq!(loader.wanted(), None);
    let expected = load_pairs_limited(&vec![precedent(1)], &vec![law(1)], Some(4));
    assert_eq!(texts(&loader.into_pairs()), texts(&expected));
}

#[test]
fn loader_ends_behind_the_last_collection() {
    let mut loader = PairLoader::start(None);
    loader.finish_collection();
    loader.finish_collection();
    assert_eq!(loader.wanted(), None);
    assert!(loader.into_pairs().is_empty());
    assert_eq!(PairLoader::start(Some(0)).wanted(), None);
}

#[test]
fn full_list_is_final() {
    let mut loader = PairLoader::start(Some(1));
    load_precedent_pairs(&vec![precedent(1), precedent(2)], &mut loader);
    assert!(loader.is_full());
    loader.finish_collection();
    load_law_pairs(&vec![law(1)], &mut loader);
    let pairs = loader.into_pairs();
    assert_eq!(pairs.len(), 1);
    assert_eq!(pairs[0].positive, "민법 제1조");
}

#[test]
fn collections_have_names() {
    assert_eq!(Collection::Precedents.name(), "precedents");
    assert_eq!(Collection::Laws.name(), "laws");
}

#[test]
fn titled_law_gives_pairs_in_twos() {
    let pairs = extract_law_pairs(&law(3));
    assert_eq!(pairs.len() % 2, 0);
    for two in pairs.chunks(2) {
        assert_eq!(two[1].anchor, "법률 3");
        assert_eq!(two[1].positive, two[0].anchor);
    }
}

#[test]
fn loaded_pairs_are_usable() {
    let precedents: Vec<String> = (1..=3).map(precedent).collect();
    let laws: Vec<String> = (1..=3).map(law).collect();
    for p in load_pairs(&precedents, &laws) {
        assert!(!p.anchor.is_empty());
        assert_eq!(p.anchor, p.anchor.trim());
        assert_eq!(p.positive, p.positive.trim());
        assert!(p.positive.len() >= 5);
    }
}

#[test]
fn corpus_is_described_by_its_counts() {
    let mut loader = PairLoader::start(None);
    load_precedent_pairs(&vec![precedent(1)], &mut loader);
    loader.finish_collection();
    load_law_pairs(&vec![law(1), law(2)], &mut loader);
    let stats = inspect_corpus(9, 4, 5, loader);
    assert_eq!(
        stats,
        CorpusStats {
            documents: 9,
            precedent_documents: 4,
            law_documents: 5,
            training_pairs: 9
        }
    );
}

#[test]
fn documents_are_counted_in_one_collection_or_in_all() {
    assert_eq!(
        count_active_documents_sql(Some("laws")),
        "SELECT COUNT(*) FROM documents WHERE active = 1 AND collection = ?1"
    );
    assert_eq!(
        count_active_documents_sql(None),
        "SELECT COUNT(*) FROM documents WHERE active = 1"
    );
}
