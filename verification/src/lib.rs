//! Budget analysis over Beancount ledgers.
use vstd::prelude::*;

pub mod text;
pub mod strmap;
pub mod amount;
pub mod util;
pub mod cli;
pub mod config;
pub mod ledger;
pub mod budget;
pub mod fit;
pub mod scoped;
pub mod tui;
pub mod report;
pub mod detail;
pub mod compare;
pub mod template;
pub mod run;

verus! {
} // verus!
