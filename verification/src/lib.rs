//! Migrates a wiki's full edit history into a git repository: every page
//! becomes a branch, every historical revision of that page becomes one
//! commit on that branch, and each page's branch is folded into a shared
//! trunk so the whole history is browsable as one linear log.
//!
//! `codec` fixes the page-to-path and page-to-branch naming; `history` is
//! the model of branch and trunk synthesis, with its laws; `store` performs
//! the model's operations on a real repository; `listing` and `dump` shape
//! what the wiki's endpoints and export files deliver; `pipeline` holds the
//! producer stages' decisions; `authors` resolves commit identities.

pub mod authors;
pub mod codec;
pub mod dump;
pub mod history;
pub mod listing;
pub mod pipeline;
pub mod store;
