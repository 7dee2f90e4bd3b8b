//! Printable power sheets.
//!
//! A character document lists the powers a character has, by name. Each name
//! is looked up in a store of power descriptions; the stored markup of a power
//! that was found is retagged with the power's name and usage category, and
//! the retagged fragments of one character are laid out in one HTML document.
//!
//! The crate holds the steps as functions on plain values:
//!
//! - [`extract`] reads the names from the bytes of a character document,
//!   through the events of [`xml`];
//! - [`repository`] holds the record of a power and the outcome of a lookup;
//! - [`rewrite`] retags the stored markup of a record, through the elements
//!   of [`dom`] and the attribute lists of [`attributes`];
//! - [`sheet`] collects the fragments of one character, and says which
//!   powers it leaves out and why;
//! - [`compose`] lays the fragments out in one HTML document.
//!
//! Reading files and querying the store are left to the caller.

pub mod attributes;
pub mod compose;
pub mod dom;
pub mod extract;
pub mod repository;
pub mod rewrite;
pub mod sheet;
pub mod text;
pub mod xml;
