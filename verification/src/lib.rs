//! A flattened device tree (FDT) parser for embedded, low memory, and safety-critical
//! environments.
//!
//! Includes the following features:
//!
//! * [Low-level FDT parsing utilities to build your own library](base::parse)
//! * [Simple utilites based on in-order parsing of the FDT](base)
//! * [Performant utilities which leverage an index built over the FDT](index)
//!
//! The functions of this crate are verified: none panics, none reads a byte outside the
//! buffers it is given, and each returns what its contract states. Two things are taken
//! from std without proof, and say so where they stand: what `core::str::from_utf8`
//! accepts, and the address at which a buffer starts.
#![allow(unused_imports)]

pub mod base;
pub mod common;
pub mod error;
pub mod index;
pub mod prelude;
pub mod priv_util;
pub mod spec;
