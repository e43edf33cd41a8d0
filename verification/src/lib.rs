//! Core logic of the Lush task runner: value formatting, text helpers,
//! build command planning, task dependency resolution and JSON conversion.

pub mod builder;
pub mod config;
pub mod fmt;
pub mod json;
pub mod numfmt;
pub mod sys;
pub mod tasks;
pub mod text;
pub mod value;

use vstd::prelude::*;

verus! {
}
