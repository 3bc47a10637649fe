//! Core logic of the dbx database tool: tag inheritance checks, SQL risk
//! classification, two-phase-commit coordination and schema comparison.

pub mod text;
pub mod tag;
pub mod sql_risk;
pub mod sql_parse;
pub mod two_phase_commit;
pub mod web_error;
pub mod dialect_types;
pub mod ast_filter;
pub mod schema_types;
pub mod schema_diff;
pub mod column_renames;
pub mod schema_sql;
pub mod schema_schedule;
pub mod schema_graph;
pub mod schema_rollback;
pub mod schema_compare;
pub mod schema_sync;
pub mod schema_prepare;
pub mod schema_patterns;
pub mod schema_coverage;
pub mod schema_shard;
pub mod schema_identity;
