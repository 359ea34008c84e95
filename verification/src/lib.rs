//! Discovery and interactive version-bumping of versioned packages.
//!
//! The library holds the verified core: the strict semantic-version
//! grammar (`semver`), the boundary-pruning directory scan (`scan`), the
//! change-to-package correlation (`correlate`, with `lex` and `paths`
//! under it), the interactive update state machine (`engine`), and what
//! the changelog, diff and manifest handling compute (`io`, `changelog`,
//! `diff`, `manifest`).

pub mod semver;
pub mod scan;
pub mod lex;
pub mod paths;
pub mod correlate;
pub mod engine;
pub mod io;
pub mod changelog;
pub mod diff;
pub mod manifest;
