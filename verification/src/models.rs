//! The records of the store and the values that requests and responses carry.

use vstd::prelude::*;
use vstd::string::StringExecFns;
use crate::error::StoreError;
use crate::identity::{fresh_id, timestamp_now, ID_LENGTH};

verus! {

/// The lowest rating a review may carry.
pub const MIN_RATING: u8 = 1;

/// The highest rating a review may carry.
pub const MAX_RATING: u8 = 5;

/// The number of results of a search that names no limit.
pub const DEFAULT_SEARCH_LIMIT: usize = 10;

/// A stored review. Once created it is never changed.
#[derive(Debug)]
pub struct Review {
    pub id: String,
    pub review_title: String,
    pub review_body: String,
    pub product_id: String,
    pub review_rating: u8,
    pub timestamp: String,
}

impl Clone for Review {
    fn clone(&self) -> (copy: Self)
        ensures
            copy == *self,
    {
        Review {
            id: self.id.clone(),
            review_title: self.review_title.clone(),
            review_body: self.review_body.clone(),
            product_id: self.product_id.clone(),
            review_rating: self.review_rating,
            timestamp: self.timestamp.clone(),
        }
    }
}

/// The text that stands for a review when it is embedded: the title, one
/// space, the body.
pub open spec fn embedding_text_of(title: Seq<char>, body: Seq<char>) -> Seq<char> {
    title + seq![' '] + body
}

/// The text to embed for a review with this title and body.
pub fn embedding_text(title: &str, body: &str) -> (text: String)
    ensures
        text@ == embedding_text_of(title@, body@),
{
    proof {
        reveal_strlit(" ");
        assert(" "@ =~= seq![' ']);
    }
    let mut text: String = String::from_str(title);
    text.append(" ");
    text.append(body);
    text
}

impl Review {
    /// The text to embed for this review.
    pub fn embedding_text(&self) -> (text: String)
        ensures
            text@ == embedding_text_of(self.review_title@, self.review_body@),
    {
        embedding_text(self.review_title.as_str(), self.review_body.as_str())
    }
}

/// What a caller supplies to have a review stored.
#[derive(Debug)]
pub struct InsertReviewRequest {
    pub review_title: String,
    pub review_body: String,
    pub product_id: String,
    pub review_rating: u8,
}

impl InsertReviewRequest {
    /// Whether the request may be stored: its rating lies in `1..=5`.
    pub open spec fn is_valid(&self) -> bool {
        MIN_RATING <= self.review_rating <= MAX_RATING
    }

    /// Checks the request before anything is written.
    pub fn validate(&self) -> (r: Result<(), StoreError>)
        ensures
            self.is_valid() ==> r == Ok::<(), StoreError>(()),
            !self.is_valid() ==> r == Err::<(), StoreError>(StoreError::RatingOutOfRange),
    {
        if MIN_RATING <= self.review_rating && self.review_rating <= MAX_RATING {
            Ok(())
        } else {
            Err(StoreError::RatingOutOfRange)
        }
    }

    /// The text to embed for the review that this request describes.
    pub fn embedding_text(&self) -> (text: String)
        ensures
            text@ == embedding_text_of(self.review_title@, self.review_body@),
    {
        embedding_text(self.review_title.as_str(), self.review_body.as_str())
    }
}

/// The record that a request becomes under a given identity and time.
pub open spec fn review_from(request: InsertReviewRequest, id: String, timestamp: String) -> Review {
    Review {
        id,
        review_title: request.review_title,
        review_body: request.review_body,
        product_id: request.product_id,
        review_rating: request.review_rating,
        timestamp,
    }
}

/// The record that `request` becomes under the given identity and time.
pub fn review_with(request: InsertReviewRequest, id: String, timestamp: String) -> (review: Review)
    ensures
        review == review_from(request, id, timestamp),
{
    Review {
        id,
        review_title: request.review_title,
        review_body: request.review_body,
        product_id: request.product_id,
        review_rating: request.review_rating,
        timestamp,
    }
}

/// A new record for `request`, under a fresh identity of 36 characters and
/// the current time. The request is taken as it is.
pub fn new_review(request: InsertReviewRequest) -> (review: Review)
    ensures
        review == review_from(request, review.id, review.timestamp),
        review.id@.len() == ID_LENGTH,
{
    let id: String = fresh_id();
    let timestamp: String = timestamp_now();
    review_with(request, id, timestamp)
}

/// A search by text.
#[derive(Debug)]
pub struct SearchRequest {
    pub query: String,
    pub limit: Option<usize>,
}

impl SearchRequest {
    /// The number of results to return: the limit named, or ten.
    pub fn effective_limit(&self) -> (limit: usize)
        ensures
            limit == match self.limit {
                Some(n) => n,
                None => DEFAULT_SEARCH_LIMIT,
            },
    {
        match self.limit {
            Some(n) => n,
            None => DEFAULT_SEARCH_LIMIT,
        }
    }
}

/// A review with its similarity to the query. The score is the bit pattern
/// of an IEEE-754 single.
#[derive(Debug)]
pub struct ReviewWithScore {
    pub review: Review,
    pub similarity_score: u32,
}

impl Clone for ReviewWithScore {
    fn clone(&self) -> (copy: Self)
        ensures
            copy == *self,
    {
        ReviewWithScore { review: self.review.clone(), similarity_score: self.similarity_score }
    }
}

/// The answer to a search: the matches, best first, and how many there are.
#[derive(Debug)]
pub struct SearchResponse {
    pub reviews: Vec<ReviewWithScore>,
    pub total_found: usize,
}

impl SearchResponse {
    /// Wraps the matches of a search, keeping their order.
    pub fn from_results(results: Vec<(Review, u32)>) -> (response: Self)
        ensures
            response.total_found == results@.len(),
            response.reviews@.len() == results@.len(),
            forall|i: int|
                0 <= i < results@.len() ==> (#[trigger] response.reviews@[i]) == (ReviewWithScore {
                    review: results@[i].0,
                    similarity_score: results@[i].1,
                }),
    {
        let total_found: usize = results.len();
        let mut reviews: Vec<ReviewWithScore> = Vec::new();
        let mut i: usize = 0;
        while i < results.len()
            invariant
                i <= results@.len(),
                reviews@.len() == i,
                forall|m: int|
                    0 <= m < i ==> (#[trigger] reviews@[m]) == (ReviewWithScore {
                        review: results@[m].0,
                        similarity_score: results@[m].1,
                    }),
            decreases results@.len() - i,
        {
            let entry = ReviewWithScore {
                review: results[i].0.clone(),
                similarity_score: results[i].1,
            };
            reviews.push(entry);
            i += 1;
        }
        SearchResponse { reviews, total_found }
    }
}

/// Envelope returned by every request: either a payload or an error message.
#[derive(Debug)]
pub struct ApiResponse<T> {
    pub success: bool,
    pub data: Option<T>,
    pub error: Option<String>,
}

impl<T> ApiResponse<T> {
    /// A successful response carrying `data`.
    pub fn success(data: T) -> (r: Self)
        ensures
            r.success,
            r.data == Some(data),
            r.error is None,
    {
        ApiResponse { success: true, data: Some(data), error: None }
    }

    /// A failed response carrying `message`.
    pub fn error(message: String) -> (r: Self)
        ensures
            !r.success,
            r.data is None,
            r.error == Some(message),
    {
        ApiResponse { success: false, data: None, error: Some(message) }
    }

    /// What a client makes of a response: the payload of a successful one,
    /// else the error message. A successful response without a payload and a
    /// failed one without a message each get a fixed message.
    pub fn into_result(self) -> (r: Result<T, String>)
        ensures
            self.success && self.data is Some ==> r == Ok::<T, String>(self.data->0),
            self.success && self.data is None ==> r is Err && r->Err_0@
                == "No data in successful response"@,
            !self.success && self.error is Some ==> r == Err::<T, String>(self.error->0),
            !self.success && self.error is None ==> r is Err && r->Err_0@ == "Unknown error"@,
    {
        if self.success {
            match self.data {
                Some(data) => Ok(data),
                None => Err(String::from_str("No data in successful response")),
            }
        } else {
            match self.error {
                Some(message) => Err(message),
                None => Err(String::from_str("Unknown error")),
            }
        }
    }
}

} // verus!
