//! Verified core of a medallion data pipeline (bronze, silver, gold, ML)
//! over cyber-security incident records.
//!
//! The numeric work on floating-point values (means, deviations, scaling,
//! tree models, charts) lives with the program around this library; what
//! stands here are the decisions of the pipeline on integer and text
//! values: which columns are kept, which are features, how categories are
//! counted, ranked and encoded, order statistics and clipping over order
//! keys, the binary target, the train/test split, confusion-matrix counts
//! and the column shuffle used for permutation importance; and in the
//! silver layer the join of incidents to their losses, the records kept
//! and the filling of missing categories.
//!
//! Numeric columns reach this library as order keys (`u64`), made by the
//! caller from the `f64` values. What is proved here about medians,
//! quartiles, clipping and the binary target holds of the values only as
//! far as the caller's keys order as the values do and map back to them;
//! that mapping is not verified here.
pub mod categorias;
pub mod colunas;
pub mod embaralhar;
pub mod graficos;
pub mod metricas;
pub mod ordem;
pub mod ouro;
pub mod prata;
pub mod treino;
