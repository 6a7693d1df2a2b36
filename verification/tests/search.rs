use shore_daemon::memory::rag::{
    entry_age, reciprocal_rank_fusion, FusedEntry, RagPipeline, RankedEntry,
};
use shore_daemon::memory::search::{tokenize, Bm25Index};

/// The identifiers that a search finds.
fn found(index: &Bm25Index, query: &str) -> Vec<String> {
    let mut ids: Vec<String> = Vec::new();
    for term in index.search(query) {
        for hit in term.hits {
            if !ids.contains(&hit.entry_id) {
                ids.push(hit.entry_id);
            }
        }
    }
    ids
}

/// The documents for a query with their BM25 scores, the best first.
fn ranked(index: &Bm25Index, query: &str, top_k: usize) -> Vec<(String, f64)> {
    let n = index.len() as f64;
    let avgdl = index.total_tokens as f64 / n;
    let mut scores: Vec<(String, f64)> = Vec::new();
    for term in index.search(query) {
        let df = term.doc_count as f64;
        let idf = ((n - df + 0.5) / (df + 0.5) + 1.0).ln();
        for hit in term.hits {
            let tf = hit.term_count as f64;
            let norm = 1.0 - 0.75 + 0.75 * hit.doc_len as f64 / avgdl;
            let score = idf * (tf * 2.2) / (tf + 1.2 * norm);
            match scores.iter().position(|(id, _)| *id == hit.entry_id) {
                Some(i) => scores[i].1 += score,
                None => scores.push((hit.entry_id, score)),
            }
        }
    }
    let entries = scores
        .into_iter()
        .map(|(entry_id, score)| RankedEntry { entry_id, score_bits: score.to_bits(), fusion_bits: 0 })
        .collect();
    RagPipeline::new(top_k)
        .retrieve(entries, false)
        .into_iter()
        .map(|r| (r.entry_id, f64::from_bits(r.score_bits)))
        .collect()
}

#[test]
fn test_basic_search() {
    let mut index = Bm25Index::new();
    index.add_document("e1", "the cat sat on the mat");
    index.add_document("e2", "the dog ran in the park");
    index.add_document("e3", "cats and dogs are pets");
    let results = index.search("cat");
    assert_eq!(results.len(), 1);
    assert_eq!(results[0].doc_count, 1);
    assert_eq!(results[0].hits[0].entry_id, "e1");
    assert_eq!(results[0].hits[0].term_count, 1);
    assert_eq!(results[0].hits[0].doc_len, 6);
}

#[test]
fn test_exact_match_scores_higher_than_partial() {
    let mut index = Bm25Index::new();
    index.add_document("exact", "machine learning is a field of artificial intelligence");
    index.add_document("partial", "the machine was broken and needed repair");
    let results = index.search("machine learning");
    assert_eq!(results.len(), 2);
    assert_eq!(results[0].doc_count, 2);
    assert_eq!(results[1].doc_count, 1);
    assert_eq!(results[1].hits[0].entry_id, "exact");
    let results = ranked(&index, "machine learning", 10);
    assert!(!results.is_empty());
    assert_eq!(results[0].0, "exact");
    if results.len() > 1 {
        assert!(results[0].1 > results[1].1);
    }
}

#[test]
fn test_empty_index_returns_empty() {
    let index = Bm25Index::new();
    assert!(found(&index, "anything").is_empty());
    assert!(index.is_empty());
}

#[test]
fn test_no_match_returns_empty() {
    let mut index = Bm25Index::new();
    index.add_document("e1", "the cat sat on the mat");
    assert!(found(&index, "xyz").is_empty());
}

#[test]
fn test_remove_document() {
    let mut index = Bm25Index::new();
    index.add_document("e1", "hello world");
    index.add_document("e2", "hello there");
    index.remove_document("e1");
    assert!(found(&index, "world").is_empty());
    assert_eq!(found(&index, "hello"), vec!["e2"]);
    assert_eq!(index.total_tokens, 2);
    assert_eq!(index.document_frequency("hello"), 1);
}

#[test]
fn test_upsert_on_add() {
    let mut index = Bm25Index::new();
    index.add_document("e1", "hello world");
    index.add_document("e1", "goodbye world");
    assert_eq!(index.len(), 1);
    assert!(found(&index, "hello").is_empty());
    assert_eq!(found(&index, "goodbye"), vec!["e1"]);
}

#[test]
fn test_term_frequency_boosts_score() {
    let mut index = Bm25Index::new();
    index.add_document("repeated", "rust rust rust is great");
    index.add_document("single", "rust is a programming language");
    let results = index.search("rust");
    assert_eq!(results[0].hits.len(), 2);
    for hit in &results[0].hits {
        let want = if hit.entry_id == "repeated" { 3 } else { 1 };
        assert_eq!(hit.term_count, want);
    }
    let results = ranked(&index, "rust", 10);
    assert_eq!(results.len(), 2);
    assert_eq!(results[0].0, "repeated");
    assert!(results[0].1 > results[1].1);
}

#[test]
fn test_top_k_limits_results() {
    let mut index = Bm25Index::new();
    for i in 0..20 {
        index.add_document(&format!("e{i}"), &format!("common term document {i}"));
    }

    let results = ranked(&index, "common", 5);
    assert_eq!(results.len(), 5);
}

#[test]
fn repeated_documents_change_no_search() {
    let mut index = Bm25Index::new();
    index.add_document("e1", "green tea");
    index.add_document("e2", "black tea and green apples");
    let counts = |index: &Bm25Index| -> Vec<(usize, Vec<(String, usize, usize)>)> {
        index
            .search("green tea apples")
            .into_iter()
            .map(|t| {
                let mut hits: Vec<(String, usize, usize)> =
                    t.hits.into_iter().map(|h| (h.entry_id, h.term_count, h.doc_len)).collect();
                hits.sort();
                (t.doc_count, hits)
            })
            .collect()
    };
    let before = counts(&index);
    assert_eq!(before[0].0, 2);
    assert_eq!(before[2], (1, vec![("e2".to_string(), 1, 5)]));
    index.add_document("e1", "green tea");
    assert_eq!(counts(&index), before);
    index.add_document("e3", "tea tea");
    assert!(counts(&index) != before);
    index.remove_document("e3");
    assert_eq!(counts(&index), before);
}

#[test]
fn ages_are_counted_in_whole_seconds() {
    let now = "2026-03-25T10:00:10.5+00:00";
    assert_eq!(entry_age("2026-03-25T10:00:00Z", now), Some(10));
    assert_eq!(entry_age("2026-03-25T12:00:09+02:00", now), Some(1));
    assert_eq!(entry_age("2026-03-25T10:00:20.5Z", now), Some(-10));
    assert_eq!(entry_age("yesterday", now), None);
    assert_eq!(entry_age(now, ""), None);
}

#[test]
fn adding_and_removing_leaves_no_trace() {
    let mut index = Bm25Index::new();
    index.add_document("e1", "hello world");
    index.add_document("e2", "brand new words");
    index.remove_document("e2");
    assert_eq!(index.len(), 1);
    assert_eq!(index.total_tokens, 2);
    assert_eq!(index.document_frequency("brand"), 0);
    index.remove_document("absent");
    assert_eq!(index.len(), 1);
    index.bm25_update("e3", "hello");
    assert!(index.has_room_for("e4", "more words"));
    assert!(index.bm25_update_if_room("e4", "hello hello"));
    assert_eq!(index.document_frequency("hello"), 3);
    assert!(index.bm25_update_if_room("e4", ""));
    assert_eq!(index.document_frequency("hello"), 2);
}

#[test]
fn texts_are_tokenized() {
    assert_eq!(tokenize("Hello, World-wide 42 a!"), vec!["hello", "world", "wide", "42", "a"]);
    assert_eq!(tokenize("ÄÖ été"), vec!["äö", "été"]);
    assert!(tokenize(" .,- ").is_empty());
}

// Fusion. The sum of the reciprocals of 60 and the places is the score.

fn ids(v: &[&str]) -> Vec<String> {
    v.iter().map(|s| s.to_string()).collect()
}

fn scored(fused: Vec<FusedEntry>) -> Vec<RankedEntry> {
    fused
        .into_iter()
        .map(|f| {
            let score: f64 = f.ranks.iter().map(|&r| 1.0 / (60.0 + r as f64)).sum();
            RankedEntry { entry_id: f.entry_id, score_bits: score.to_bits(), fusion_bits: score.to_bits() }
        })
        .collect()
}

fn retrieve(top_k: usize, vector: &[&str], keyword: &[&str], is_private: bool) -> Vec<RankedEntry> {
    let fused = reciprocal_rank_fusion(&ids(vector), &ids(keyword));
    RagPipeline::new(top_k).retrieve(scored(fused), is_private)
}

#[test]
fn test_rrf_fusion_basic_ranking() {
    let results = retrieve(10, &["e1", "e2"], &["e1", "e3"], false);
    assert!(!results.is_empty());
    assert_eq!(results[0].entry_id, "e1");
    assert!(f64::from_bits(results[0].score_bits) > f64::from_bits(results[1].score_bits));
}

#[test]
fn test_rrf_fusion_disjoint_sources() {
    let results = retrieve(10, &["v1", "v2"], &["b1", "b2"], false);
    assert_eq!(results.len(), 4);
    let got: Vec<&str> = results.iter().map(|r| r.entry_id.as_str()).collect();
    assert!(got.contains(&"v1"));
    assert!(got.contains(&"b1"));
}

#[test]
fn test_rrf_fusion_single_source_only() {
    let results = retrieve(10, &["e1", "e2"], &[], false);
    assert_eq!(results.len(), 2);
    assert_eq!(results[0].entry_id, "e1");
}

#[test]
fn test_private_conversation_returns_empty() {
    assert!(retrieve(10, &["e1", "e2"], &["e1"], true).is_empty());
}

#[test]
fn test_top_k_caps_results() {
    let names: Vec<String> = (0..10).map(|i| format!("e{i}")).collect();
    let refs: Vec<&str> = names.iter().map(|s| s.as_str()).collect();
    let results = retrieve(3, &refs, &[], false);
    assert_eq!(results.len(), 3);
    assert_eq!(results[2].entry_id, "e2");
}

#[test]
fn test_empty_inputs_returns_empty() {
    assert!(retrieve(10, &[], &[], false).is_empty());
}

#[test]
fn test_missing_metadata_uses_rrf_only() {
    let results = retrieve(10, &["e1"], &["e1"], false);
    assert_eq!(results.len(), 1);
    assert_eq!(results[0].entry_id, "e1");
    assert_eq!(f64::from_bits(results[0].score_bits), 2.0 / 61.0);
}

#[test]
fn places_are_counted_from_one() {
    let fused = reciprocal_rank_fusion(&ids(&["a", "b"]), &ids(&["b", "c", "a"]));
    assert_eq!(fused.len(), 3);
    for f in &fused {
        let want = match f.entry_id.as_str() {
            "a" => vec![1, 3],
            "b" => vec![2, 1],
            _ => vec![2],
        };
        assert_eq!(f.ranks, want);
    }
    assert_eq!(RagPipeline::default().top_k, 32);
}

fn order_of(scores: &[(&str, f64, f64)]) -> Vec<String> {
    let entries = scores
        .iter()
        .map(|(id, score, fusion)| RankedEntry {
            entry_id: id.to_string(),
            score_bits: score.to_bits(),
            fusion_bits: fusion.to_bits(),
        })
        .collect();
    RagPipeline::new(9).retrieve(entries, false).into_iter().map(|r| r.entry_id).collect()
}

#[test]
fn equally_good_results_keep_their_order() {
    let got = order_of(&[("a", 1.0, 0.0), ("b", 2.0, 0.0), ("c", 1.0, 0.0), ("d", 2.0, 0.0)]);
    assert_eq!(got, vec!["b", "d", "a", "c"]);
    let got = order_of(&[("a", 1.0, 0.1), ("b", -0.5, 0.9), ("c", 1.0, 0.2), ("d", 0.0, 0.0)]);
    assert_eq!(got, vec!["c", "a", "d", "b"]);
}
