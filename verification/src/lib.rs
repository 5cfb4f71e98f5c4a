//! Story aggregation for a programming-news site: scraping of the front pages and feeds of Hacker
//! News, Slashdot, Lobsters and Reddit, URL normalization, tagging, title cleanup, story dates, the
//! date-sharded bookkeeping of the story store, the schedule of periodic jobs, the registry of static
//! files, and the reading of older archives.
pub mod text;
pub mod shard;
pub mod html;
pub mod tagset;
pub mod tagger;
pub mod titletrimmer;
pub mod url;
pub mod source;
pub mod urlnormalizer;
pub mod scrapers;
pub mod persist;
pub mod date;
pub mod story_id;
pub mod query;
pub mod json;
pub mod reddit;
pub mod xml;
pub mod lobsters;
pub mod slashdot;
pub mod dom;
pub mod hacker_news;
pub mod cron;
pub mod filters;
pub mod collector;
pub mod extract;
pub mod legacy;
pub mod static_files;
pub mod story;
pub mod memindex;
pub mod backup;
pub mod scoring;
