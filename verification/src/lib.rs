//! Batching loader core for crystallography snapshot URLs.
//!
//! Many callers ask, each for one data collection, for the signed URLs of
//! its crystal snapshots. The loader collects the keys asked for within one
//! scheduling tick, has them fetched with a single bulk query, has every
//! raw path of the returned records signed, and hands each caller the URLs
//! of its own key, or the one error that ended the batch.
//!
//! The loader itself does no I/O. It is a transition system: its driver
//! reports what happened as an [`loader::Event`], and is told what to do
//! next as an [`loader::Action`]. [`model`] states what the loader does;
//! [`laws`] holds what follows for every run.

pub mod batch;
pub mod entities;
pub mod error;
pub mod keys;
pub mod laws;
pub mod loader;
pub mod model;
pub mod presign;
pub mod record;
