//! The book feeder: Project Gutenberg editions and Open Library work cards.
//!
//! The library decides; it sends nothing and reads nothing. What is asked of an
//! upstream is a value ([`lookup`], [`gutenberg`]), what came back is handed in, and
//! what is published comes out as a record.
//!
//! - [`openlibrary`], [`card`], [`query`]: the `openlibrary` upstream, `card` x `book`
//! - [`gutenberg`], [`edition`], [`rdf`], [`language`]: the `gutenberg` upstream,
//!   `document` x `book`
//! - [`openlibrary_client`], [`lookup`], [`cache`], [`contact`]: the Open Library client
//!   that both share, through which an edition joins its work
//! - [`send`]: how often a request is sent, and what comes of it
//! - [`calendar`]: the year of a moment
//! - [`types`], [`table`], [`json`], [`text`]: plain values
pub mod cache;
pub mod calendar;
pub mod card;
pub mod contact;
pub mod edition;
pub mod gutenberg;
pub mod json;
pub mod language;
pub mod lookup;
pub mod openlibrary;
pub mod openlibrary_client;
pub mod query;
pub mod rdf;
pub mod send;
pub mod table;
pub mod text;
pub mod types;
