//! Personal expense records: an ordered collection of expenses with
//! create, delete, partial update, category listing and date summaries.
pub mod date;
pub mod text;
pub mod expenses_definitions;
pub mod guarantees;
