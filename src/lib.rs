/// Monetary amounts bounded by the total money supply.
pub mod amount;
/// Identifiers, pools, heights and confirmation status.
pub mod types;
/// The wallet's transaction records.
pub mod store;
/// Failures of the input-source operations.
pub mod error;
/// Candidate collection, ordering and greedy selection of notes.
pub mod selection;
/// Note lookup, note selection and transparent-output lookup over the store.
pub mod input_source;
/// Properties that hold across the operations, with their proofs.
pub mod laws;
