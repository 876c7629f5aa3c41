use review_search::error::StoreError;
use review_search::models::{
    embedding_text, new_review, review_with, ApiResponse, InsertReviewRequest, Review,
    SearchRequest, SearchResponse,
};

fn request(rating: u8) -> InsertReviewRequest {
    InsertReviewRequest {
        review_title: "Great battery".to_string(),
        review_body: "Lasts all day".to_string(),
        product_id: "SKU-7".to_string(),
        review_rating: rating,
    }
}

fn review(id: &str) -> Review {
    review_with(request(4), id.to_string(), "2024-01-01T00:00:00+00:00".to_string())
}

#[test]
fn api_response_success_carries_data() {
    let r = ApiResponse::success(7u32);
    assert!(r.success);
    assert_eq!(r.data, Some(7));
    assert_eq!(r.error, None);
}

#[test]
fn api_response_error_carries_message() {
    let r: ApiResponse<u32> = ApiResponse::error("boom".to_string());
    assert!(!r.success);
    assert_eq!(r.data, None);
    assert_eq!(r.error, Some("boom".to_string()));
}

#[test]
fn api_response_into_result() {
    assert_eq!(ApiResponse::success(3u8).into_result(), Ok(3));
    let failed: ApiResponse<u8> = ApiResponse::error("bad input".to_string());
    assert_eq!(failed.into_result(), Err("bad input".to_string()));
    let hollow: ApiResponse<u8> = ApiResponse { success: true, data: None, error: None };
    assert_eq!(hollow.into_result(), Err("No data in successful response".to_string()));
    let mute: ApiResponse<u8> = ApiResponse { success: false, data: Some(1), error: None };
    assert_eq!(mute.into_result(), Err("Unknown error".to_string()));
}

#[test]
fn search_limit_defaults_to_ten() {
    let named = SearchRequest { query: "q".to_string(), limit: Some(3) };
    let unnamed = SearchRequest { query: "q".to_string(), limit: None };
    let zero = SearchRequest { query: "q".to_string(), limit: Some(0) };
    assert_eq!(named.effective_limit(), 3);
    assert_eq!(unnamed.effective_limit(), 10);
    assert_eq!(zero.effective_limit(), 0);
}

#[test]
fn embedding_text_joins_title_and_body_with_one_space() {
    assert_eq!(embedding_text("Great battery", "Lasts all day"), "Great battery Lasts all day");
    assert_eq!(embedding_text("", ""), " ");
    assert_eq!(request(5).embedding_text(), "Great battery Lasts all day");
    assert_eq!(review("x").embedding_text(), "Great battery Lasts all day");
}

#[test]
fn rating_must_lie_between_one_and_five() {
    assert_eq!(request(0).validate(), Err(StoreError::RatingOutOfRange));
    assert_eq!(request(6).validate(), Err(StoreError::RatingOutOfRange));
    assert_eq!(request(255).validate(), Err(StoreError::RatingOutOfRange));
    for rating in 1..=5 {
        assert_eq!(request(rating).validate(), Ok(()));
    }
}

#[test]
fn review_with_takes_every_field() {
    let r = review("abc");
    assert_eq!(r.id, "abc");
    assert_eq!(r.review_title, "Great battery");
    assert_eq!(r.review_body, "Lasts all day");
    assert_eq!(r.product_id, "SKU-7");
    assert_eq!(r.review_rating, 4);
    assert_eq!(r.timestamp, "2024-01-01T00:00:00+00:00");
}

#[test]
fn new_review_has_fresh_identity_and_time() {
    let a = new_review(request(5));
    let b = new_review(request(5));
    assert_eq!(a.id.len(), 36);
    assert_eq!(a.id.chars().filter(|c| *c == '-').count(), 4);
    assert_ne!(a.id, b.id);
    assert_eq!(a.review_title, "Great battery");
    assert_eq!(a.review_rating, 5);
    assert!(a.timestamp.contains('T'));
    assert!(a.timestamp.ends_with("+00:00"));
}

#[test]
fn clone_of_review_is_equal_field_by_field() {
    let r = review("abc");
    let c = r.clone();
    assert_eq!(c.id, r.id);
    assert_eq!(c.review_title, r.review_title);
    assert_eq!(c.review_body, r.review_body);
    assert_eq!(c.product_id, r.product_id);
    assert_eq!(c.review_rating, r.review_rating);
    assert_eq!(c.timestamp, r.timestamp);
}

#[test]
fn search_response_keeps_order_and_counts() {
    let results = vec![(review("a"), 0.9f32.to_bits()), (review("b"), 0.1f32.to_bits())];
    let response = SearchResponse::from_results(results);
    assert_eq!(response.total_found, 2);
    assert_eq!(response.reviews.len(), 2);
    assert_eq!(response.reviews[0].review.id, "a");
    assert_eq!(response.reviews[0].similarity_score, 0.9f32.to_bits());
    assert_eq!(response.reviews[1].review.id, "b");
    assert_eq!(response.reviews[1].similarity_score, 0.1f32.to_bits());
    let none = SearchResponse::from_results(Vec::new());
    assert_eq!(none.total_found, 0);
    assert!(none.reviews.is_empty());
}

#[test]
fn store_errors_describe_themselves() {
    assert_eq!(StoreError::RatingOutOfRange.message(), "rating must be between 1 and 5");
    assert_eq!(StoreError::VectorTooLong.message(), "vector has too many components");
    assert_eq!(StoreError::EmbeddingCountMismatch.message(), "one vector is needed for each record");
    assert_eq!(StoreError::IndexUnavailable.message(), "vector index is not available");
}
