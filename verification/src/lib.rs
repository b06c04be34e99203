//! A verified core for an AST-first SQL layer: typed query trees and their
//! builders, a PostgreSQL compiler with numbered bindings, offset and cursor
//! pagination, migration bookkeeping and the plans of the lifecycle
//! commands, relation naming and eager-loading bookkeeping, SQL
//! observability (fingerprints, redaction, slow-query and N+1 logs), loaded
//! records, and the per-request cache of model extension rows.

pub mod error;
pub mod text;

pub mod aggregate;
pub mod ast;
pub mod builders;
pub mod compiler;
pub mod config;
pub mod extensions;
pub mod lifecycle;
pub mod numbering;
pub mod observability;
pub mod pagination;
pub mod projection;
pub mod query;
pub mod record;
pub mod relation;
pub mod sql_log;
pub mod sql_model;

pub use error::Error;
