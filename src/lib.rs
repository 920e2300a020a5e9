//! Checks paired up/down SQL migrations: every schema entity that a
//! statement of the up-migration touches must be named again by a statement
//! of the same category in its down-migration (a presence check, not a check
//! that one undoes the other), and migration numbers must run without gaps.
//!
//! The checker is made of the statement classifier (`statement`), the
//! migration pairer (`pairing`), the reconciliation engine (`reconcile`) and
//! the driver (`driver`); `laws` proves properties of their combination.
//! The other modules hold small utilities of the same workspace: bookmark
//! lists, card and guessing games, key-value stores and their command
//! runners, word counts, news-post lookup, archive query URLs and
//! command-line argument validators. `pattern` and `text` hold what they
//! share: the regular-expression layer and verified string operations.

pub mod archive;
pub mod arguments;
pub mod bookmarks;
pub mod cards;
pub mod driver;
pub mod guessing;
pub mod hide_and_seek;
pub mod keyvalue;
pub mod laws;
pub mod lobsters;
pub mod movement;
pub mod pairing;
pub mod pattern;
pub mod reconcile;
pub mod rps;
pub mod statement;
pub mod store;
pub mod text;
pub mod word_count;
