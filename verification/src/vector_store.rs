//! The store: records and their vectors, aligned by position.
//!
//! The store keeps in memory what two append-only files hold: one line of
//! metadata per record, and one record of the vector log per vector. It
//! decides what is written and what is read back; reading and writing the
//! files, and turning text into vectors, is done by its caller.

use vstd::prelude::*;
use vstd::string::StringExecFns;
use crate::error::StoreError;
use crate::identity::ID_LENGTH;
use crate::models::{
    embedding_text_of,
    new_review,
    review_from,
    review_with,
    InsertReviewRequest,
    Review,
};
use crate::ranking::{top_k, top_selection};
use crate::vector_log::{
    decode_log,
    encodable,
    encode_log,
    encode_vector,
    lemma_log_append,
    lemma_log_round_trip,
    log_bytes,
    parse_log,
    record_bytes,
};
use crate::views::{lemma_deep_view, lemma_vectors_of_add, lemma_vectors_of_push, vectors_of};

verus! {

/// What a store holds, as mathematics.
pub struct StoreView {
    /// The directory that holds the two files.
    pub data_dir: Seq<char>,
    /// The records, in order of insertion.
    pub records: Seq<Review>,
    /// The vectors, in order of insertion.
    pub vectors: Seq<Seq<u32>>,
}

impl StoreView {
    /// Alignment: there is one vector for each record, so that position `i`
    /// of one belongs to position `i` of the other.
    pub open spec fn aligned(self) -> bool {
        self.records.len() == self.vectors.len()
    }

    /// The store after the files' contents have been taken in: the records
    /// parsed from the metadata file, and the vectors that the vector file
    /// yields, if there is one.
    pub open spec fn with_files(self, records: Seq<Review>, vector_file: Option<Seq<u8>>) -> StoreView {
        StoreView {
            data_dir: self.data_dir,
            records: self.records + records,
            vectors: self.vectors + match vector_file {
                Some(bytes) => parse_log(bytes),
                None => Seq::empty(),
            },
        }
    }

    /// The store with its vectors replaced by `vectors`.
    pub open spec fn with_vectors(self, vectors: Seq<Seq<u32>>) -> StoreView {
        StoreView { data_dir: self.data_dir, records: self.records, vectors }
    }

    /// The store with one more record and its vector at the end.
    pub open spec fn inserted(self, review: Review, vector: Seq<u32>) -> StoreView {
        StoreView {
            data_dir: self.data_dir,
            records: self.records.push(review),
            vectors: self.vectors.push(vector),
        }
    }
}

/// The texts to embed for `records`, in order.
pub open spec fn texts_of(records: Seq<Review>) -> Seq<Seq<char>> {
    Seq::new(
        records.len(),
        |i: int| embedding_text_of(records[i].review_title@, records[i].review_body@),
    )
}

/// Whether an item may be stored: its request is valid and its vector fits
/// the log.
pub open spec fn admissible(item: (InsertReviewRequest, Vec<u32>)) -> bool {
    item.0.is_valid() && item.1@.len() <= u32::MAX
}

/// Whether every item may be stored.
pub open spec fn all_admissible(items: Seq<(InsertReviewRequest, Vec<u32>)>) -> bool {
    forall|i: int| 0 <= i < items.len() ==> admissible(#[trigger] items[i])
}

/// The fault of an item that may not be stored; the rating comes first.
pub open spec fn fault_of(item: (InsertReviewRequest, Vec<u32>)) -> StoreError {
    if !item.0.is_valid() {
        StoreError::RatingOutOfRange
    } else {
        StoreError::VectorTooLong
    }
}

/// What remains to be done after the files have been taken in.
#[derive(Debug)]
pub enum LoadPlan {
    /// Records and vectors are aligned: the store is ready.
    Ready,
    /// The counts differed and the vectors were discarded. The texts, one
    /// for each record in order, are to be embedded anew and handed to
    /// `complete_reconciliation`.
    Reembed(Vec<String>),
}

/// The contents of an optional byte buffer.
pub open spec fn bytes_of(file: Option<&[u8]>) -> Option<Seq<u8>> {
    match file {
        Some(bytes) => Some(bytes@),
        None => None,
    }
}

/// Files written by a reconciliation load back aligned and with the same
/// vectors: loading them again finds nothing to reconcile, so that running
/// the reconciliation twice ends with the vectors of the first run.
pub proof fn lemma_reconciled_files_load_aligned(
    data_dir: Seq<char>,
    records: Seq<Review>,
    embeddings: Seq<Seq<u32>>,
)
    requires
        embeddings.len() == records.len(),
        encodable(embeddings),
    ensures
        ({
            let fresh = StoreView { data_dir, records: Seq::empty(), vectors: Seq::empty() };
            let loaded = fresh.with_files(records, Some(log_bytes(embeddings)));
            loaded.aligned() && loaded.records == records && loaded.vectors == embeddings
        }),
{
    lemma_log_round_trip(embeddings);
    let fresh = StoreView { data_dir, records: Seq::empty(), vectors: Seq::empty() };
    let loaded = fresh.with_files(records, Some(log_bytes(embeddings)));
    assert(loaded.records =~= records);
    assert(loaded.vectors =~= embeddings);
}

/// The store after `reviews` have been inserted one by one, each with the
/// vector at the same index of `vectors`.
pub open spec fn after_insertions(
    start: StoreView,
    reviews: Seq<Review>,
    vectors: Seq<Seq<u32>>,
) -> StoreView
    decreases reviews.len(),
{
    if reviews.len() == 0 || vectors.len() == 0 {
        start
    } else {
        after_insertions(start, reviews.drop_last(), vectors.drop_last()).inserted(
            reviews.last(),
            vectors.last(),
        )
    }
}

/// Alignment is kept by insertion: a store that starts aligned and takes in
/// records with their vectors one by one is aligned after each of them, and
/// a store that starts empty then holds as many of each as were inserted.
pub proof fn lemma_insertions_keep_alignment(
    start: StoreView,
    reviews: Seq<Review>,
    vectors: Seq<Seq<u32>>,
)
    requires
        start.aligned(),
        reviews.len() == vectors.len(),
    ensures
        after_insertions(start, reviews, vectors).aligned(),
        after_insertions(start, reviews, vectors).records.len() == start.records.len()
            + reviews.len(),
        after_insertions(start, reviews, vectors).vectors.len() == start.vectors.len()
            + reviews.len(),
        after_insertions(start, reviews, vectors).records == start.records + reviews,
        after_insertions(start, reviews, vectors).vectors == start.vectors + vectors,
    decreases reviews.len(),
{
    if reviews.len() > 0 {
        lemma_insertions_keep_alignment(start, reviews.drop_last(), vectors.drop_last());
        let before = after_insertions(start, reviews.drop_last(), vectors.drop_last());
        assert(before.records.push(reviews.last()) =~= start.records + reviews);
        assert(before.vectors.push(vectors.last()) =~= start.vectors + vectors);
    } else {
        assert(start.records + reviews =~= start.records);
        assert(start.vectors + vectors =~= start.vectors);
    }
}

/// The matches that a selection stands for: each selected position that has
/// a record, with that record and the score, in the order of the selection.
/// A position without a record is passed over.
pub open spec fn matches_of(selection: Seq<(usize, u32)>, records: Seq<Review>) -> Seq<
    (Review, u32),
>
    decreases selection.len(),
{
    if selection.len() == 0 {
        Seq::empty()
    } else {
        let before = matches_of(selection.drop_last(), records);
        let entry = selection.last();
        if entry.0 < records.len() {
            before.push((records[entry.0 as int], entry.1))
        } else {
            before
        }
    }
}

/// There are no more matches than entries in the selection.
pub proof fn lemma_matches_of_bounded(selection: Seq<(usize, u32)>, records: Seq<Review>)
    ensures
        matches_of(selection, records).len() <= selection.len(),
    decreases selection.len(),
{
    if selection.len() > 0 {
        lemma_matches_of_bounded(selection.drop_last(), records);
    }
}

/// Where every selected position has a record, there is one match for each
/// entry of the selection.
pub proof fn lemma_matches_of_all(selection: Seq<(usize, u32)>, records: Seq<Review>)
    requires
        forall|i: int| 0 <= i < selection.len() ==> (#[trigger] selection[i]).0 < records.len(),
    ensures
        matches_of(selection, records).len() == selection.len(),
        forall|i: int|
            0 <= i < selection.len() ==> (#[trigger] matches_of(selection, records)[i]) == (
                records[selection[i].0 as int],
                selection[i].1,
            ),
    decreases selection.len(),
{
    if selection.len() > 0 {
        let front = selection.drop_last();
        assert forall|i: int| 0 <= i < front.len() implies (#[trigger] front[i]).0
            < records.len() by {
            assert(front[i] == selection[i]);
        }
        lemma_matches_of_all(front, records);
        assert(selection.last() == selection[selection.len() - 1]);
    }
}

/// What an insertion hands back: the new record, and the bytes by which the
/// vector file grows.
#[derive(Debug)]
pub struct Inserted {
    /// The record as stored, to be appended to the metadata file.
    pub review: Review,
    /// The record of the vector log to append to the vector file.
    pub vector_record: Vec<u8>,
}

/// The records and vectors of one data directory.
pub struct VectorStore {
    data_dir: String,
    vectors: Vec<Vec<u32>>,
    reviews: Vec<Review>,
}

impl View for VectorStore {
    type V = StoreView;

    closed spec fn view(&self) -> StoreView {
        StoreView {
            data_dir: self.data_dir@,
            records: self.reviews@,
            vectors: vectors_of(self.vectors@),
        }
    }
}

impl VectorStore {
    /// An empty store for the directory `data_dir`.
    pub fn new(data_dir: &str) -> (store: Self)
        ensures
            store@.data_dir == data_dir@,
            store@.records.len() == 0,
            store@.vectors.len() == 0,
            store@.aligned(),
    {
        VectorStore {
            data_dir: String::from_str(data_dir),
            vectors: Vec::new(),
            reviews: Vec::new(),
        }
    }

    /// The path of the metadata file.
    pub fn metadata_path(&self) -> (path: String)
        ensures
            path@ == self@.data_dir + "/reviews.jsonl"@,
    {
        self.data_dir.clone().concat("/reviews.jsonl")
    }

    /// The path of the vector file.
    pub fn vector_path(&self) -> (path: String)
        ensures
            path@ == self@.data_dir + "/reviews.index"@,
    {
        self.data_dir.clone().concat("/reviews.index")
    }

    /// The number of records and the number of vectors. They differ exactly
    /// when the store is not aligned.
    pub fn get_stats(&self) -> (counts: (usize, usize))
        ensures
            counts.0 == self@.records.len(),
            counts.1 == self@.vectors.len(),
    {
        (self.reviews.len(), self.vectors.len())
    }

    /// The records, in order of insertion.
    pub fn reviews(&self) -> (reviews: &Vec<Review>)
        ensures
            reviews@ == self@.records,
    {
        &self.reviews
    }

    /// The vectors, in order of insertion.
    pub fn vectors(&self) -> (vectors: &Vec<Vec<u32>>)
        ensures
            vectors_of(vectors@) == self@.vectors,
    {
        &self.vectors
    }

    /// Checks, before anything is stored, that `request` is valid and that
    /// `embedding` fits the log; the rating is examined first. On success
    /// the result is the record of the vector log for `embedding`.
    fn check_item(request: &InsertReviewRequest, embedding: &Vec<u32>) -> (r: Result<
        Vec<u8>,
        StoreError,
    >)
        ensures
            !request.is_valid() ==> r == Err::<Vec<u8>, StoreError>(StoreError::RatingOutOfRange),
            request.is_valid() && embedding@.len() > u32::MAX ==> r == Err::<Vec<u8>, StoreError>(
                StoreError::VectorTooLong,
            ),
            request.is_valid() && embedding@.len() <= u32::MAX ==> r is Ok && r->Ok_0@
                == record_bytes(embedding@),
    {
        match request.validate() {
            Err(e) => Err(e),
            Ok(_) => encode_vector(embedding),
        }
    }

    /// Puts `review` and its vector at the end of the store.
    fn append(&mut self, review: Review, embedding: Vec<u32>)
        ensures
            final(self)@ == old(self)@.inserted(review, embedding@),
            log_bytes(final(self)@.vectors) == log_bytes(old(self)@.vectors) + record_bytes(
                embedding@,
            ),
    {
        proof {
            lemma_vectors_of_push(self.vectors@, embedding);
            lemma_log_append(vectors_of(self.vectors@), embedding@);
        }
        self.vectors.push(embedding);
        self.reviews.push(review);
    }

    /// Stores the record that `request` becomes under `id` and `timestamp`,
    /// with `embedding` as its vector.
    ///
    /// Nothing is stored when the request is invalid or the vector too long
    /// for the log; the rating is examined first.
    pub fn insert_identified(
        &mut self,
        request: InsertReviewRequest,
        id: String,
        timestamp: String,
        embedding: Vec<u32>,
    ) -> (r: Result<Inserted, StoreError>)
        ensures
            !request.is_valid() ==> r == Err::<Inserted, StoreError>(StoreError::RatingOutOfRange)
                && final(self)@ == old(self)@,
            request.is_valid() && embedding@.len() > u32::MAX ==> r == Err::<Inserted, StoreError>(
                StoreError::VectorTooLong,
            ) && final(self)@ == old(self)@,
            request.is_valid() && embedding@.len() <= u32::MAX ==> r is Ok && r->Ok_0.review
                == review_from(request, id, timestamp) && r->Ok_0.vector_record@ == record_bytes(
                embedding@,
            ) && final(self)@ == old(self)@.inserted(r->Ok_0.review, embedding@) && log_bytes(
                final(self)@.vectors,
            ) == log_bytes(old(self)@.vectors) + r->Ok_0.vector_record@,
    {
        let vector_record: Vec<u8> = match Self::check_item(&request, &embedding) {
            Err(e) => {
                return Err(e);
            },
            Ok(bytes) => bytes,
        };
        let review: Review = review_with(request, id, timestamp);
        self.append(review.clone(), embedding);
        Ok(Inserted { review, vector_record })
    }

    /// Stores a new record for `request` with `embedding` as its vector,
    /// under a fresh identity and the current time.
    ///
    /// Fails as `insert_identified` does. On success the record carries the
    /// fields of the request and an identity of 36 characters, both counts
    /// grow by one, and the vector file grows by the bytes handed back.
    pub fn insert_review(&mut self, request: InsertReviewRequest, embedding: Vec<u32>) -> (r:
        Result<Inserted, StoreError>)
        ensures
            !request.is_valid() ==> r == Err::<Inserted, StoreError>(StoreError::RatingOutOfRange)
                && final(self)@ == old(self)@,
            request.is_valid() && embedding@.len() > u32::MAX ==> r == Err::<Inserted, StoreError>(
                StoreError::VectorTooLong,
            ) && final(self)@ == old(self)@,
            request.is_valid() && embedding@.len() <= u32::MAX ==> r is Ok && r->Ok_0.review
                == review_from(request, r->Ok_0.review.id, r->Ok_0.review.timestamp)
                && r->Ok_0.review.id@.len() == ID_LENGTH && r->Ok_0.vector_record@ == record_bytes(
                embedding@,
            ) && final(self)@ == old(self)@.inserted(r->Ok_0.review, embedding@) && log_bytes(
                final(self)@.vectors,
            ) == log_bytes(old(self)@.vectors) + r->Ok_0.vector_record@,
    {
        let vector_record: Vec<u8> = match Self::check_item(&request, &embedding) {
            Err(e) => {
                return Err(e);
            },
            Ok(bytes) => bytes,
        };
        let review: Review = new_review(request);
        self.append(review.clone(), embedding);
        Ok(Inserted { review, vector_record })
    }

    /// Stores a new record for each request of `items` with the vector that
    /// stands beside it, in order. All items are checked before the first is
    /// stored: when one is invalid nothing is stored and the error is that
    /// of the first such item.
    ///
    /// On success the result holds, for each item in order, what
    /// `insert_review` hands back for it; both counts have grown by the
    /// number of items, so that an aligned store stays aligned.
    pub fn insert_reviews_bulk(&mut self, items: Vec<(InsertReviewRequest, Vec<u32>)>) -> (r:
        Result<Vec<Inserted>, StoreError>)
        ensures
            !all_admissible(items@) ==> r is Err && final(self)@ == old(self)@ && exists|i: int|
                0 <= i < items@.len() && all_admissible(items@.take(i)) && !admissible(
                    #[trigger] items@[i],
                ) && r->Err_0 == fault_of(items@[i]),
            all_admissible(items@) ==> r is Ok && r->Ok_0@.len() == items@.len() && (forall|
                i: int,
            |
                0 <= i < items@.len() ==> {
                    let done = #[trigger] r->Ok_0@[i];
                    &&& done.review == review_from(
                        items@[i].0,
                        done.review.id,
                        done.review.timestamp,
                    )
                    &&& done.review.id@.len() == ID_LENGTH
                    &&& done.vector_record@ == record_bytes(items@[i].1@)
                }) && final(self)@ == after_insertions(
                old(self)@,
                Seq::new(items@.len(), |i: int| r->Ok_0@[i].review),
                Seq::new(items@.len(), |i: int| items@[i].1@),
            ),
    {
        let n: usize = items.len();
        let mut i: usize = 0;
        while i < n
            invariant
                n == items@.len(),
                i <= n,
                all_admissible(items@.take(i as int)),
            decreases n - i,
        {
            match Self::check_item(&items[i].0, &items[i].1) {
                Err(e) => {
                    proof {
                        assert(!admissible(items@[i as int]));
                    }
                    return Err(e);
                },
                Ok(_) => {},
            }
            proof {
                assert forall|m: int| 0 <= m < i + 1 implies admissible(
                    #[trigger] items@.take(i + 1)[m],
                ) by {
                    if m < i {
                        assert(items@.take(i + 1)[m] == items@.take(i as int)[m]);
                    }
                }
            }
            i += 1;
        }
        proof {
            assert(items@.take(n as int) =~= items@);
        }
        let ghost start = self@;
        let ghost all = items@;
        let mut done: Vec<Inserted> = Vec::new();
        for item in it: items
            invariant
                it.seq() == all,
                all_admissible(all),
                done@.len() == it.index(),
                forall|m: int|
                    0 <= m < it.index() ==> {
                        let d = #[trigger] done@[m];
                        &&& d.review == review_from(all[m].0, d.review.id, d.review.timestamp)
                        &&& d.review.id@.len() == ID_LENGTH
                        &&& d.vector_record@ == record_bytes(all[m].1@)
                    },
                self@ == after_insertions(
                    start,
                    Seq::new(it.index() as nat, |m: int| done@[m].review),
                    Seq::new(it.index() as nat, |m: int| all[m].1@),
                ),
        {
            let ghost k = it.index() as int;
            let ghost reviews_before = Seq::new(k as nat, |m: int| done@[m].review);
            let ghost vectors_before = Seq::new(k as nat, |m: int| all[m].1@);
            let ghost done_before = done@;
            assert(admissible(all[k]));
            let (request, embedding) = item;
            let vector_record: Vec<u8> = match Self::check_item(&request, &embedding) {
                Err(e) => {
                    return Err(e);
                },
                Ok(bytes) => bytes,
            };
            let review: Review = new_review(request);
            self.append(review.clone(), embedding);
            done.push(Inserted { review, vector_record });
            proof {
                let reviews_after = Seq::new((k + 1) as nat, |m: int| done@[m].review);
                let vectors_after = Seq::new((k + 1) as nat, |m: int| all[m].1@);
                assert(reviews_after.drop_last() =~= reviews_before) by {
                    assert forall|m: int| 0 <= m < k implies reviews_after.drop_last()[m]
                        == reviews_before[m] by {
                        assert(done@[m] == done_before[m]);
                    }
                }
                assert(vectors_after.drop_last() =~= vectors_before);
                assert(reviews_after.last() == review);
                assert(vectors_after.last() == embedding@);
                assert forall|m: int| 0 <= m < k + 1 implies {
                    let d = #[trigger] done@[m];
                    &&& d.review == review_from(all[m].0, d.review.id, d.review.timestamp)
                    &&& d.review.id@.len() == ID_LENGTH
                    &&& d.vector_record@ == record_bytes(all[m].1@)
                } by {
                    if m < k {
                        assert(done@[m] == done_before[m]);
                    }
                }
            }
        }
        Ok(done)
    }

    /// Takes in what the two files hold, after the caller has read them:
    /// `metadata` are the records parsed from the metadata file, or `None`
    /// where there is no such file; `vector_file` are the bytes of the
    /// vector file, or `None` where there is none.
    ///
    /// Without a metadata file nothing is loaded. Otherwise the vector file
    /// is read up to its last complete record and the records are added.
    /// When the two counts then differ, every vector is discarded and the
    /// plan asks for all records to be embedded anew.
    pub fn load_existing_data(
        &mut self,
        metadata: Option<Vec<Review>>,
        vector_file: Option<&[u8]>,
    ) -> (plan: LoadPlan)
        ensures
            metadata is None ==> final(self)@ == old(self)@ && plan is Ready,
            metadata is Some ==> ({
                let loaded = old(self)@.with_files(metadata->0@, bytes_of(vector_file));
                if loaded.aligned() {
                    final(self)@ == loaded && plan is Ready
                } else {
                    &&& final(self)@ == loaded.with_vectors(Seq::empty())
                    &&& plan is Reembed
                    &&& plan->Reembed_0@.len() == loaded.records.len()
                    &&& forall|i: int|
                        0 <= i < loaded.records.len() ==> (#[trigger] plan->Reembed_0@[i])@
                            == texts_of(loaded.records)[i]
                }
            }),
    {
        let mut records: Vec<Review> = match metadata {
            None => {
                return LoadPlan::Ready;
            },
            Some(records) => records,
        };
        let ghost loaded = self@.with_files(records@, bytes_of(vector_file));
        match vector_file {
            Some(bytes) => {
                let mut decoded: Vec<Vec<u32>> = decode_log(bytes);
                proof {
                    lemma_deep_view(decoded);
                    lemma_vectors_of_add(self.vectors@, decoded@);
                }
                self.vectors.append(&mut decoded);
            },
            None => {
                proof {
                    assert(self@.vectors + Seq::<Seq<u32>>::empty() =~= self@.vectors);
                }
            },
        }
        self.reviews.append(&mut records);
        assert(self@ == loaded);
        if self.vectors.len() == self.reviews.len() {
            return LoadPlan::Ready;
        }
        self.vectors.clear();
        proof {
            assert(vectors_of(self.vectors@) =~= Seq::<Seq<u32>>::empty());
        }
        let mut texts: Vec<String> = Vec::new();
        let mut i: usize = 0;
        while i < self.reviews.len()
            invariant
                i <= self.reviews@.len(),
                texts@.len() == i,
                forall|m: int|
                    0 <= m < i ==> (#[trigger] texts@[m])@ == texts_of(self.reviews@)[m],
            decreases self.reviews@.len() - i,
        {
            texts.push(self.reviews[i].embedding_text());
            i += 1;
        }
        LoadPlan::Reembed(texts)
    }

    /// Completes a reconciliation with the freshly computed vectors, one for
    /// each record in order. On success the store holds exactly these
    /// vectors, and the result is the full content of the rewritten vector
    /// file, to replace the old file.
    ///
    /// Fails, changing nothing, when the number of vectors is not the number
    /// of records, and otherwise when a vector is too long for the log.
    pub fn complete_reconciliation(&mut self, embeddings: Vec<Vec<u32>>) -> (r: Result<
        Vec<u8>,
        StoreError,
    >)
        ensures
            embeddings@.len() != old(self)@.records.len() ==> r == Err::<Vec<u8>, StoreError>(
                StoreError::EmbeddingCountMismatch,
            ) && final(self)@ == old(self)@,
            embeddings@.len() == old(self)@.records.len() && !encodable(vectors_of(embeddings@))
                ==> r == Err::<Vec<u8>, StoreError>(StoreError::VectorTooLong) && final(self)@
                == old(self)@,
            embeddings@.len() == old(self)@.records.len() && encodable(vectors_of(embeddings@))
                ==> r is Ok && r->Ok_0@ == log_bytes(vectors_of(embeddings@)) && final(self)@
                == old(self)@.with_vectors(vectors_of(embeddings@)) && final(self)@.aligned()
                && parse_log(r->Ok_0@) == final(self)@.vectors,
    {
        if embeddings.len() != self.reviews.len() {
            return Err(StoreError::EmbeddingCountMismatch);
        }
        proof {
            lemma_deep_view(embeddings);
            if encodable(vectors_of(embeddings@)) {
                lemma_log_round_trip(vectors_of(embeddings@));
            }
        }
        let file: Vec<u8> = match encode_log(&embeddings) {
            Err(e) => {
                return Err(e);
            },
            Ok(bytes) => bytes,
        };
        self.vectors = embeddings;
        Ok(file)
    }

    /// The matches of a selection: for each selected position that has a
    /// record, a copy of the record and the score, in the selection's order.
    pub fn resolve(&self, selection: &Vec<(usize, u32)>) -> (found: Vec<(Review, u32)>)
        ensures
            found@ == matches_of(selection@, self@.records),
            found@.len() <= selection@.len(),
    {
        let mut found: Vec<(Review, u32)> = Vec::new();
        let mut i: usize = 0;
        proof {
            assert(selection@.take(0) =~= Seq::<(usize, u32)>::empty());
        }
        while i < selection.len()
            invariant
                i <= selection@.len(),
                found@ == matches_of(selection@.take(i as int), self.reviews@),
            decreases selection@.len() - i,
        {
            proof {
                assert(selection@.take(i + 1).drop_last() =~= selection@.take(i as int));
                assert(selection@.take(i + 1).last() == selection@[i as int]);
            }
            let position: usize = selection[i].0;
            if position < self.reviews.len() {
                found.push((self.reviews[position].clone(), selection[i].1));
            }
            i += 1;
        }
        proof {
            assert(selection@.take(i as int) =~= selection@);
            lemma_matches_of_bounded(selection@, self.reviews@);
        }
        found
    }

    /// Searches with the similarity of the query to each stored vector:
    /// `scores[i]` belongs to the vector at position `i`. Returns the `limit`
    /// best records with their scores, best first; equal scores keep the
    /// order of insertion. A store without vectors has no matches.
    ///
    /// There are never more than `limit` matches. In an aligned store with
    /// one score for each vector there are `limit` of them, or as many as
    /// there are records if that is fewer, and match `i` is the record at
    /// the position that entry `i` of the selection names.
    pub fn search(&self, scores: &Vec<u32>, limit: usize) -> (found: Vec<(Review, u32)>)
        ensures
            self@.vectors.len() == 0 ==> found@.len() == 0,
            self@.vectors.len() > 0 ==> found@ == matches_of(
                top_selection(scores@, limit as nat),
                self@.records,
            ),
            found@.len() <= limit,
            self@.aligned() && scores@.len() == self@.vectors.len() ==> {
                let selection = top_selection(scores@, limit as nat);
                &&& found@.len() == if limit <= scores@.len() {
                    limit as int
                } else {
                    scores@.len() as int
                }
                &&& forall|i: int|
                    0 <= i < found@.len() ==> (#[trigger] found@[i]) == (
                        self@.records[selection[i].0 as int],
                        selection[i].1,
                    )
            },
    {
        if self.vectors.len() == 0 {
            return Vec::new();
        }
        let selection: Vec<(usize, u32)> = top_k(scores, limit);
        proof {
            if self@.aligned() && scores@.len() == self@.vectors.len() {
                lemma_matches_of_all(selection@, self@.records);
            }
        }
        self.resolve(&selection)
    }
}

} // verus!
