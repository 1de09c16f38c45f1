//! Cross-table lookup (CTL) argument for a multi-table STARK.
//!
//! A computation is split across several execution-trace tables; the CTL
//! argument proves that rows a "looking" table claims to have consumed appear,
//! with identical multiplicity, among the rows the "looked" table produces.
//! The library builds the running-product ("Z") polynomials that embed the
//! multiset-equality check, derives the per-row boundary and transition
//! constraints every valid Z polynomial must satisfy, and performs the final
//! cross-table product equality on opening values.

pub mod error;
pub mod field;
pub mod seq_lemmas;
pub mod column;
pub mod challenge;
pub mod table;
pub mod registry;
pub mod ctl;
pub mod verify;
pub mod check_vars;
pub mod consistency;
