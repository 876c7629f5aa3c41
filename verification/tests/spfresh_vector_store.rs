use review_search::error::StoreError;
use review_search::models::{review_with, InsertReviewRequest, Review};
use review_search::spfresh_vector_store::{SPFreshVectorStore, INDEX_DIMENSION};

fn request(rating: u8) -> InsertReviewRequest {
    InsertReviewRequest {
        review_title: "title".to_string(),
        review_body: "body".to_string(),
        product_id: "SKU-9".to_string(),
        review_rating: rating,
    }
}

fn stored(id: &str) -> Review {
    review_with(request(3), id.to_string(), "2024-05-05T10:00:00+00:00".to_string())
}

#[test]
fn index_dimension_is_fixed() {
    assert_eq!(INDEX_DIMENSION, 384);
}

#[test]
fn new_indexed_store_is_empty() {
    let store = SPFreshVectorStore::new("./data", true);
    assert!(store.is_ready());
    assert_eq!(store.get_stats(12), (0, 12));
    assert_eq!(store.metadata_path(), "./data/spfresh_reviews.jsonl");
}

#[test]
fn store_without_index_reports_no_vectors_and_stores_nothing() {
    let mut store = SPFreshVectorStore::new("data", false);
    assert!(!store.is_ready());
    assert_eq!(store.insert_review(stored("a"), 0), Err(StoreError::IndexUnavailable));
    assert_eq!(store.get_stats(7), (0, 0));
    assert_eq!(store.begin_insert(request(3)).err(), Some(StoreError::IndexUnavailable));
    assert_eq!(store.begin_insert(request(0)).err(), Some(StoreError::RatingOutOfRange));
}

#[test]
fn begin_insert_makes_the_record() {
    let store = SPFreshVectorStore::new("data", true);
    let review = store.begin_insert(request(4)).unwrap();
    assert_eq!(review.id.len(), 36);
    assert_eq!(review.review_title, "title");
    assert_eq!(review.product_id, "SKU-9");
    assert_eq!(review.review_rating, 4);
    assert_eq!(store.begin_insert(request(9)).err(), Some(StoreError::RatingOutOfRange));
}

#[test]
fn hits_are_mapped_to_records_in_order() {
    let mut store = SPFreshVectorStore::new("data", true);
    assert_eq!(store.insert_review(stored("a"), 10), Ok(()));
    assert_eq!(store.insert_review(stored("b"), 11), Ok(()));
    assert_eq!(store.insert_review(stored("c"), 12), Ok(()));
    assert_eq!(store.get_stats(3), (3, 3));
    let found = store.search(&vec![(12, 900), (10, 800), (11, 700)]);
    let ids: Vec<&str> = found.iter().map(|m| m.0.id.as_str()).collect();
    assert_eq!(ids, vec!["c", "a", "b"]);
    let scores: Vec<u32> = found.iter().map(|m| m.1).collect();
    assert_eq!(scores, vec![900, 800, 700]);
}

#[test]
fn unknown_hits_are_passed_over() {
    let mut store = SPFreshVectorStore::new("data", true);
    store.insert_review(stored("a"), 1).unwrap();
    let found = store.search(&vec![(5, 1), (1, 2), (-3, 3)]);
    assert_eq!(found.len(), 1);
    assert_eq!(found[0].0.id, "a");
    assert_eq!(found[0].1, 2);
    assert!(store.search(&Vec::new()).is_empty());
}

#[test]
fn identifier_registered_again_leads_to_the_later_record() {
    let mut store = SPFreshVectorStore::new("data", true);
    store.insert_review(stored("old"), 4).unwrap();
    store.insert_review(stored("new"), 4).unwrap();
    let found = store.search(&vec![(4, 1)]);
    assert_eq!(found.len(), 1);
    assert_eq!(found[0].0.id, "new");
    assert_eq!(store.get_stats(2), (2, 2));
}

#[test]
fn largest_identifier_is_accepted() {
    let mut store = SPFreshVectorStore::new("data", true);
    assert_eq!(store.insert_review(stored("top"), i32::MAX), Ok(()));
    assert_eq!(store.insert_review(stored("low"), i32::MIN), Ok(()));
    let found = store.search(&vec![(i32::MAX, 1), (i32::MIN, 2)]);
    assert_eq!(found.len(), 2);
    assert_eq!(found[0].0.id, "top");
    assert_eq!(found[1].0.id, "low");
}
