//! Agent execution state, policies, budgets and validation rules.
#![allow(unused_imports)]

pub mod error;
pub mod models;

pub use error::{Error, Result};
pub mod harness;
pub mod primitives;
pub mod store;
pub mod text;
pub mod security;
pub mod budgets;
pub mod json;
pub mod definitions;
pub mod runtime;
pub mod cancellation;
pub mod dispatch;
pub mod scheduling;
pub mod submit;
pub mod tick;
pub mod coordination;
pub mod recovery;
pub mod memory;
pub mod context;
pub mod credentials;
pub mod customer;
pub mod skills;
pub mod cli;
pub mod configured;
pub mod inspection;
pub mod delegation;
pub mod publication;
pub mod team;
pub mod criteria;
pub mod evaluation;
pub mod publishing;
pub mod recall;
