//! Turns a Saga & Seeker HTML character sheet into compact Markdown: the
//! page is decoded, its skills are read, what is not shown is removed, and
//! the Markdown rendering keeps only the sections, skills and statuses that
//! matter.
pub mod text;
pub mod line_rules;
pub mod markdown;
pub mod status;
pub mod skills;
pub mod sheet;
pub mod json;
pub mod dom;
pub mod page;
pub mod report;
pub mod laws;
