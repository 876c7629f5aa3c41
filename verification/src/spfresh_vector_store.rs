//! The bookkeeping of a store whose vectors live in an external index.
//!
//! The index hands out an identifier for each vector added to it and
//! answers a query with identifiers and scores. This store keeps the
//! records and remembers which record each identifier belongs to. The index
//! itself is driven by the caller, who reports what it returned.

use std::collections::HashMap;
use vstd::prelude::*;
use vstd::string::StringExecFns;
use crate::error::StoreError;
use crate::identity::ID_LENGTH;
use crate::models::{new_review, review_from, InsertReviewRequest, Review};

verus! {

broadcast use vstd::std_specs::hash::group_hash_axioms;

/// The number of components of the vectors that the index is created for.
pub const INDEX_DIMENSION: usize = 384;

/// What the store holds, as mathematics.
pub struct IndexedView {
    /// The directory that holds the metadata file.
    pub data_dir: Seq<char>,
    /// The records, in order of insertion.
    pub records: Seq<Review>,
    /// For each identifier of the index, the position of its record.
    pub positions: Map<i32, usize>,
    /// An identifier above all that have been stored.
    pub next_id: i32,
    /// Whether the index could be created.
    pub ready: bool,
}

impl IndexedView {
    /// The store after the record `review` has been stored under the
    /// identifier `vector_id`. The next identifier stays above every one
    /// stored, as far as the range of identifiers allows.
    pub open spec fn registered(self, review: Review, vector_id: i32) -> IndexedView {
        IndexedView {
            data_dir: self.data_dir,
            records: self.records.push(review),
            positions: self.positions.insert(vector_id, self.records.len() as usize),
            next_id: if vector_id < self.next_id {
                self.next_id
            } else if vector_id < i32::MAX {
                (vector_id + 1) as i32
            } else {
                i32::MAX
            },
            ready: self.ready,
        }
    }

    /// Every identifier leads to the position of a record.
    pub open spec fn well_formed(self) -> bool {
        forall|id: i32| #[trigger]
            self.positions.contains_key(id) ==> self.positions[id] < self.records.len()
    }
}

/// The matches that the hits of the index stand for: each hit whose
/// identifier leads to a record, with that record and the hit's score, in
/// the order of the hits. A hit that leads nowhere is passed over.
pub open spec fn hit_matches(
    hits: Seq<(i32, u32)>,
    positions: Map<i32, usize>,
    records: Seq<Review>,
) -> Seq<(Review, u32)>
    decreases hits.len(),
{
    if hits.len() == 0 {
        Seq::empty()
    } else {
        let before = hit_matches(hits.drop_last(), positions, records);
        let hit = hits.last();
        if positions.contains_key(hit.0) && positions[hit.0] < records.len() {
            before.push((records[positions[hit.0] as int], hit.1))
        } else {
            before
        }
    }
}

/// Records beside an external vector index.
pub struct SPFreshVectorStore {
    reviews: Vec<Review>,
    id_to_review_index: HashMap<i32, usize>,
    data_dir: String,
    next_id: i32,
    ready: bool,
}

impl View for SPFreshVectorStore {
    type V = IndexedView;

    closed spec fn view(&self) -> IndexedView {
        IndexedView {
            data_dir: self.data_dir@,
            records: self.reviews@,
            positions: self.id_to_review_index@,
            next_id: self.next_id,
            ready: self.ready,
        }
    }
}

impl SPFreshVectorStore {
    /// An empty store for the directory `data_dir`. `index_created` tells
    /// whether the caller could create the index.
    pub fn new(data_dir: &str, index_created: bool) -> (store: Self)
        ensures
            store@.data_dir == data_dir@,
            store@.records.len() == 0,
            store@.positions == Map::<i32, usize>::empty(),
            store@.next_id == 0,
            store@.ready == index_created,
            store@.well_formed(),
    {
        SPFreshVectorStore {
            reviews: Vec::new(),
            id_to_review_index: HashMap::new(),
            data_dir: String::from_str(data_dir),
            next_id: 0,
            ready: index_created,
        }
    }

    /// The path of the metadata file.
    pub fn metadata_path(&self) -> (path: String)
        ensures
            path@ == self@.data_dir + "/spfresh_reviews.jsonl"@,
    {
        self.data_dir.clone().concat("/spfresh_reviews.jsonl")
    }

    /// Whether the index could be created.
    pub fn is_ready(&self) -> (ready: bool)
        ensures
            ready == self@.ready,
    {
        self.ready
    }

    /// The record to insert for `request`, before its vector goes to the
    /// index. Fails when the request is invalid and, for a valid request,
    /// when there is no index.
    pub fn begin_insert(&self, request: InsertReviewRequest) -> (r: Result<Review, StoreError>)
        ensures
            !request.is_valid() ==> r == Err::<Review, StoreError>(StoreError::RatingOutOfRange),
            request.is_valid() && !self@.ready ==> r == Err::<Review, StoreError>(
                StoreError::IndexUnavailable,
            ),
            request.is_valid() && self@.ready ==> r is Ok && r->Ok_0 == review_from(
                request,
                r->Ok_0.id,
                r->Ok_0.timestamp,
            ) && r->Ok_0.id@.len() == ID_LENGTH,
    {
        match request.validate() {
            Err(e) => {
                return Err(e);
            },
            Ok(_) => {},
        }
        if !self.ready {
            return Err(StoreError::IndexUnavailable);
        }
        Ok(new_review(request))
    }

    /// Stores `review`, whose vector the index took in under the identifier
    /// `vector_id`. An identifier stored before now leads to the new record.
    /// Without an index nothing is stored.
    pub fn insert_review(&mut self, review: Review, vector_id: i32) -> (r: Result<(), StoreError>)
        ensures
            !old(self)@.ready ==> r == Err::<(), StoreError>(StoreError::IndexUnavailable)
                && final(self)@ == old(self)@,
            old(self)@.ready ==> r == Ok::<(), StoreError>(()) && final(self)@
                == old(self)@.registered(review, vector_id),
            old(self)@.well_formed() ==> final(self)@.well_formed(),
    {
        if !self.ready {
            return Err(StoreError::IndexUnavailable);
        }
        let position: usize = self.reviews.len();
        self.id_to_review_index.insert(vector_id, position);
        self.reviews.push(review);
        proof {
            if old(self)@.well_formed() {
                assert forall|id: i32| #[trigger]
                    self.id_to_review_index@.contains_key(id) implies self.id_to_review_index@[id]
                    < self.reviews@.len() by {
                    if id != vector_id {
                        assert(old(self)@.positions.contains_key(id));
                    }
                }
            }
        }
        if vector_id >= self.next_id {
            self.next_id = if vector_id < i32::MAX {
                vector_id + 1
            } else {
                i32::MAX
            };
        }
        Ok(())
    }

    /// The matches of a query: for each hit of the index whose identifier
    /// leads to a record, a copy of the record and the hit's score, in the
    /// order of the hits.
    pub fn search(&self, hits: &Vec<(i32, u32)>) -> (found: Vec<(Review, u32)>)
        ensures
            found@ == hit_matches(hits@, self@.positions, self@.records),
    {
        let mut found: Vec<(Review, u32)> = Vec::new();
        let mut i: usize = 0;
        proof {
            assert(hits@.take(0) =~= Seq::<(i32, u32)>::empty());
        }
        while i < hits.len()
            invariant
                i <= hits@.len(),
                found@ == hit_matches(
                    hits@.take(i as int),
                    self.id_to_review_index@,
                    self.reviews@,
                ),
            decreases hits@.len() - i,
        {
            proof {
                assert(hits@.take(i + 1).drop_last() =~= hits@.take(i as int));
                assert(hits@.take(i + 1).last() == hits@[i as int]);
            }
            let id: i32 = hits[i].0;
            match self.id_to_review_index.get(&id) {
                Some(position) => {
                    if *position < self.reviews.len() {
                        found.push((self.reviews[*position].clone(), hits[i].1));
                    }
                },
                None => {},
            }
            i += 1;
        }
        proof {
            assert(hits@.take(i as int) =~= hits@);
        }
        found
    }

    /// The number of records, and the number of vectors: the count that the
    /// index reports, or zero without an index.
    pub fn get_stats(&self, index_count: usize) -> (counts: (usize, usize))
        ensures
            counts.0 == self@.records.len(),
            counts.1 == if self@.ready {
                index_count
            } else {
                0
            },
    {
        let vectors: usize = if self.ready {
            index_count
        } else {
            0
        };
        (self.reviews.len(), vectors)
    }
}

} // verus!
