//! An embedding-backed store for short product reviews: bit-exact vector
//! persistence, lexical feature counting, exact top-k ranking and the
//! bookkeeping that keeps records and vectors aligned.

pub mod error;
pub mod identity;
pub mod lexical;
pub mod metadata;
pub mod models;
pub mod ranking;
pub mod spfresh_vector_store;
pub mod text;
pub mod vector_log;
pub mod vector_store;
pub mod views;
pub mod vocabulary;
