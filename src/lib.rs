//! Ingestion core of an ERC20 transfer tracker: the adaptive backfill
//! scanner, the writes of each pipeline, the supervisor's bookkeeping,
//! transfer decoding, an exact balance ledger, and the rules of the read
//! API's queries and documents.
pub mod address;
pub mod amount;
pub mod document;
pub mod ingest;
pub mod ledger;
pub mod query;
pub mod scanner;
pub mod supervisor;
pub mod text;
pub mod transfer;
