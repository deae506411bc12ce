pub mod text;
pub mod calendar;
pub mod range;
pub mod gitlab;
pub mod records;
pub mod report;
pub mod details;
pub mod collect;
