//! Searching the NIST lists of validated cryptographic modules and entropy
//! sources: reading the pages, scanning security policies, and reporting.

pub mod certificates;
pub mod esv;
pub mod esv_laws;
pub mod fetch;
pub mod html;
pub mod listing;
pub mod listing_laws;
pub mod models;
pub mod patterns;
pub mod policy;
pub mod policy_laws;
pub mod report;
pub mod report_laws;
pub mod rows;
pub mod search;
pub mod search_laws;
pub mod text;
pub mod text_laws;
