use caibot::corpus::{Corpus, CorpusClient, CorpusTexts};
use caibot::errors::Error;

fn texts(common: &str, refuse: &str, trigger: &str, phrase: &str) -> CorpusTexts {
    CorpusTexts {
        common: String::from(common),
        refuse: String::from(refuse),
        trigger: String::from(trigger),
        phrase: String::from(phrase),
    }
}

#[test]
fn from_texts_splits_lines_and_groups() {
    let c = Corpus::from_texts(&texts("a\nbb\nccc\n", "r1\nr2", "t", "x y\nz"));
    assert_eq!(c.common, vec!["a", "bb", "ccc"]);
    assert_eq!(c.refuse, vec!["r1", "r2"]);
    assert_eq!(c.trigger, vec!["t"]);
    assert_eq!(c.phrase, vec![vec!["x", "y"], vec!["z"]]);
}

#[test]
fn from_texts_trims_blanks_at_both_ends() {
    let c = Corpus::from_texts(&texts(" \n a\nb \r\n", "", "", ""));
    assert_eq!(c.common, vec!["a", "b"]);
}

#[test]
fn from_texts_on_empty_text_yields_one_empty_entry() {
    let c = Corpus::from_texts(&texts("", "", "", ""));
    assert_eq!(c.common, vec![""]);
    assert_eq!(c.phrase, vec![vec![""]]);
}

#[test]
fn startup_fetch_failure_fails_initialization() {
    let r = CorpusClient::new_from_fetch(Err(Error::FetchFailed));
    assert!(r.is_err());
}

#[test]
fn update_success_replaces_snapshot_wholesale() {
    let mut cache = CorpusClient::new_from_fetch(Ok(texts("a", "r", "t", "p"))).unwrap();
    let r = cache.update(Ok(texts("b\nc", "r2", "t2", "p q")));
    assert!(r.is_ok());
    assert_eq!(*cache.corpus(), Corpus::from_texts(&texts("b\nc", "r2", "t2", "p q")));
}

#[test]
fn failed_refresh_leaves_previous_snapshot_untouched() {
    let mut cache = CorpusClient::new_from_fetch(Ok(texts("a\nb", "r", "t", "p q"))).unwrap();
    let before = cache.corpus().clone();
    let r = cache.update(Err(Error::FetchFailed));
    assert!(matches!(r, Err(Error::FetchFailed)));
    assert_eq!(*cache.corpus(), before);
}

#[test]
fn sell_pool_keeps_matching_phrases_in_order() {
    let common = vec![String::from("apple"), String::from("bread"), String::from("grape")];
    let pool = caibot::seller::sell_pool(&common, "ap");
    assert_eq!(pool, vec!["apple", "grape"]);
}

#[test]
fn sell_pool_with_empty_keyword_keeps_everything() {
    let common = vec![String::from("apple"), String::from("bread")];
    let pool = caibot::seller::sell_pool(&common, "");
    assert_eq!(pool, common);
}

#[test]
fn sell_pool_with_no_match_is_empty() {
    let common = vec![String::from("apple")];
    let pool = caibot::seller::sell_pool(&common, "zzz");
    assert!(pool.is_empty());
}
