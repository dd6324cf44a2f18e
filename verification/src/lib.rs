use vstd::prelude::*;

pub mod traversal;
pub mod all_paths;
pub mod config;
pub mod value;
pub mod text;
pub mod error;
pub mod expr;
pub mod eval_spec;
pub mod eval;
pub mod eval_laws;
pub mod lookup;
pub mod keys;
pub mod auth;
pub mod provenance;
pub mod inference;
pub mod materialize;
pub mod ddl;
pub mod sameas;
pub mod collapse;
pub mod degree;
pub mod shape;
pub mod result;
pub mod records;
pub mod context;
pub mod dml;
pub mod fetch;
pub mod schema;
pub mod sorting;
pub mod show;
pub mod stats;
pub mod meta_tables;
pub mod tables;
pub mod writes;
pub mod find;
pub mod go;

verus! {
} // verus!
