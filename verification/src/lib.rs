//! Regulatory financial-disclosure data: per-concept fact histories for a
//! single filer, and a persistent text-search directory of company
//! identity records.
pub mod facts;
pub mod index;
pub mod text;
