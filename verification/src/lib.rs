//! Normaliser for ad-blocking filter lists in the syntax of Adblock Plus,
//! uBlock Origin and AdGuard: tidies, sorts, deduplicates and merges rules,
//! and repairs common authoring typos.
//!
//! The engine, from the leaves up:
//! - `classify` tells the kinds of lines apart;
//! - `cosmetic` and `network` put one rule in canonical form, with the
//!   order of `domains`;
//! - `typos` repairs punctuation mistakes in one line;
//! - `combine` merges neighbouring rules that differ only in their domains,
//!   `hastext` merges rules that differ only in the text they look for;
//! - `sections` runs over a list, section by section; `rerun` shows that a
//!   second run over a hosts file changes nothing.
//!
//! Beside it stand the header lines of a list (`checksum`, `datestamp`), the
//! settings file (`config`), the difference between two texts (`diff`) and
//! the rules about commits (`git`). `text`, `order`, `unique` and `pattern`
//! are what the rest is built on: texts as sequences of characters, a
//! stable sort, the removal of repeated lines, and regular expressions.

pub mod checksum;
pub mod classify;
pub mod combine;
pub mod config;
pub mod cosmetic;
pub mod datestamp;
pub mod diff;
pub mod domains;
pub mod git;
pub mod hastext;
pub mod network;
pub mod order;
pub mod pattern;
pub mod rerun;
pub mod sections;
pub mod text;
pub mod typos;
pub mod unique;
