//! Collects JUnit XML test reports: finds report files, parses suites and
//! failures out of them, and renders a markdown summary.
pub mod text;
pub mod path;
pub mod report;
pub mod xml;
pub mod summary;
pub mod listing;
