//! A type checker core for a small class-based language whose types carry
//! permissions (`my`, `our`, `ref[..]`, `mut[..]`, `moved[..]`).
//!
//! - `grammar`: the terms of the language and the place algebra;
//! - `env`: the typing environment and the record of moved places;
//! - `liens`: how permissions decompose into lien chains, and the
//!   permission predicates (copy, unique, owned, lent) decided on them;
//! - `subtypes`: the subtyping judgment over lien chains;
//! - `accesses`: whether an access to a place is permitted;
//! - `liveness`: which variables may be read after a program point.
//!
//! Each judgment is an executable function whose result is stated exactly
//! by a spec function of the same rules.
pub mod accesses;
pub mod env;
pub mod grammar;
pub mod liens;
pub mod liveness;
pub mod subtypes;
