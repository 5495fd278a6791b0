use solfhe::matching::{rank_matches, MatchResult, ScoredAd};
use solfhe::records::AdKey;
use solfhe::results::ResultStore;

fn scored(advertiser: u64, seq: u64, score: u64) -> ScoredAd {
    ScoredAd {
        ad: AdKey { advertiser, seq },
        score,
    }
}

#[test]
fn test_rank_matches_example() {
    // Three ads scoring 90, 60 and 80 against a threshold of 75: exactly
    // the first and the third survive, highest score first.
    let ad_a = scored(1, 0, 90);
    let ad_b = scored(2, 0, 60);
    let ad_c = scored(3, 0, 80);
    let result = rank_matches(&vec![ad_a, ad_b, ad_c]);
    assert_eq!(result.entries, vec![ad_a, ad_c]);
}

#[test]
fn test_rank_matches_tie_stability() {
    let first80 = scored(1, 0, 80);
    let top = scored(2, 0, 90);
    let second80 = scored(3, 0, 80);
    let low = scored(4, 0, 76);
    let result = rank_matches(&vec![first80, top, second80, low]);
    assert_eq!(result.entries, vec![top, first80, second80, low]);
}

#[test]
fn test_rank_matches_threshold_boundary() {
    // The threshold must be exceeded: 75 itself is out, 76 is in.
    let at = scored(1, 0, 75);
    let above = scored(2, 0, 76);
    let result = rank_matches(&vec![at, above]);
    assert_eq!(result.entries, vec![above]);
}

#[test]
fn test_rank_matches_none_qualify() {
    let result = rank_matches(&vec![scored(1, 0, 10), scored(2, 0, 75), scored(3, 0, 0)]);
    assert!(result.entries.is_empty());
}

#[test]
fn test_rank_matches_empty() {
    let result = rank_matches(&Vec::new());
    assert!(result.entries.is_empty());
}

#[test]
fn test_result_store_append_keeps_order() {
    let mut store = ResultStore::new();
    let first80 = scored(1, 0, 80);
    let top = scored(2, 0, 90);
    let second80 = scored(3, 0, 80);
    store.append(first80);
    store.append(top);
    store.append(second80);
    assert_eq!(store.len(), 3);
    assert_eq!(store.get(0), top);
    assert_eq!(store.get(1), first80);
    assert_eq!(store.get(2), second80);
}

#[test]
fn test_result_store_absorb() {
    let mut store = ResultStore::new();
    store.append(scored(9, 0, 85));
    let result = MatchResult {
        entries: vec![scored(1, 0, 90), scored(2, 0, 80)],
    };
    store.absorb(&result);
    assert_eq!(store.len(), 3);
    assert_eq!(store.get(0).score, 90);
    assert_eq!(store.get(1).score, 85);
    assert_eq!(store.get(2).score, 80);
}
