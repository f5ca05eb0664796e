//! The redaction engine of a word-guessing game that is played on
//! encyclopedia articles.
//!
//! In an article's title and extract every word is replaced by a
//! placeholder, which shows how long the word is and carries an identifier of
//! the word's class. Words with the same root, such as "game"
//! and "games", share a class, so that a client can reveal all of them at
//! once. Markup and HTML entities pass through untouched.
//!
//! - [`normalize`], [`stem`], [`encode`] and [`classify`] lead from a word to
//!   the identifier of its class.
//! - [`annotation`], [`token`] and [`redact`] lead from article text to
//!   redacted markup.
//! - [`page`] and [`lists`] say where titles and pages come from and what to
//!   make of an answer; [`escape`] makes a title safe for a query; [`audit`]
//!   checks a list of titles against such answers. Reading files and talking
//!   to the content service is the caller's part.
//!
//! Every function is verified against a contract over the characters of its
//! arguments. Four things are taken on trust from other crates, each behind
//! one small function: the ASCII transliteration of a text, the English stem
//! of a word, which characters are letters, and the random draw of a title.
//! Two more are taken from the standard library: appending a character to a
//! string, and which characters are white space.

pub mod annotation;
pub mod audit;
pub mod classify;
pub mod encode;
pub mod error;
pub mod escape;
pub mod lists;
pub mod normalize;
pub mod page;
pub mod redact;
pub mod stem;
pub mod text;
pub mod token;
