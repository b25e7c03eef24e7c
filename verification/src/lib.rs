//! Decision logic of the roder Kubernetes layer, with contracts checked by Verus.
use vstd::prelude::*;

pub mod alertmanager;
pub mod alerts;
pub mod catalog;
pub mod cnpg;
pub mod coordination;
pub mod dashboard;
pub mod discovery;
pub mod drain;
pub mod error;
pub mod files;
pub mod flux;
pub mod helm;
pub mod informer;
pub mod json;
pub mod listing;
pub mod kopiur;
pub mod logs;
pub mod matching;
pub mod mutations;
pub mod overview;
pub mod permissions;
pub mod printer_columns;
pub mod queries;
pub mod recommend;
pub mod references;
pub mod registry;
pub mod relations;
pub mod rollup;
pub mod rows;
pub mod sanitize;
pub mod shell;
pub mod sort;
pub mod status;
pub mod storage;
pub mod text;
pub mod tree;
pub mod warnings;

verus! {

} // verus!
