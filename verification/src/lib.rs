//! Verified core of the Manatan launcher: manga endpoint routing and page URL
//! rewriting, the downloaded-chapter fallback, local manga archive naming and
//! gathering, natural ordering, migration and process plans, the update
//! status, and the small parsers they rest on.

pub mod archives;
pub mod endpoints;
pub mod launcher;
pub mod media;
pub mod names;
pub mod natural;
pub mod numbers;
pub mod pages;
pub mod plans;
pub mod serving;
pub mod text;
pub mod titles;
pub mod updates;
