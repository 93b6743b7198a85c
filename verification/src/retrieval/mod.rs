//! Routing of queries to the kinds of memory, and ordering of what they find.
pub mod bm25;
pub mod intent_classifier;
pub mod planner;
pub mod reranker;

pub use bm25::BM25Retriever;
pub use intent_classifier::IntentClassifier;
pub use planner::RetrievalPlanner;
pub use reranker::Reranker;
