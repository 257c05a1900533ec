//! Brings a SurrealDB database up to date with two sets of numbered scripts:
//! the schema scripts, which make a fresh database, and the migration
//! scripts, which change an existing one step by step.
//!
//! This library decides; it never talks to the database. [`script`] loads a
//! set of scripts and holds it to its numbering, [`ledger`] reads off the
//! database's description whether the table `migrations` exists,
//! [`reconcile`] holds the records of that table against the scripts,
//! [`plan`] says what is to be run and recorded, [`transaction`] writes that
//! out as statements, and [`engine`] strings these together into the steps of
//! a run. The caller performs each step and hands back what came of it.

pub mod decimal;
pub mod engine;
pub mod errors;
pub mod ledger;
pub mod plan;
pub mod reconcile;
pub mod script;
pub mod transaction;
