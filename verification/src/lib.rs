//! A bridge for calling functions of a shared library whose signatures are
//! only known at run time, and the tokenizer that turns a line of text into
//! typed call arguments.
//!
//! The library decides and the host acts. Loading a file, looking a name up
//! and jumping to an address are things only the operating system and the
//! call machinery can do; a host program does them. This library says what
//! to ask for and what the answer means: which path and which name go to the
//! loader and in what form, when a handle or an address counts as a failure,
//! which arguments a line of text spells, and whether types and values of a
//! call fit together. Every function here is total on the inputs its
//! contract admits and never panics.
//!
//! Floating-point values do not occur here. A float argument is held as the
//! decimal literal that spells it, a float result as the bits of its
//! encoding, and the host converts.
//!
//! - [`types`]: the types that can cross the call boundary, and their values.
//! - [`scan`], [`number`], [`token`]: the argument grammar and the tokenizer.
//! - [`grammar`], [`joining`]: laws of the tokenizer. It takes the longest
//!   literal at each place, and separators mean nothing but that a literal
//!   ends.
//! - [`buffer`]: zero-terminated byte strings.
//! - [`call`]: the call descriptor, and lines of input taken apart.
//! - [`handler`]: the library handle and symbols.
//! - [`error`]: the failures.
//! - [`color`], [`math`]: what small libraries to try the bridge on take and
//!   compute.

pub mod buffer;
pub mod call;
pub mod color;
pub mod error;
pub mod grammar;
pub mod handler;
pub mod joining;
pub mod math;
pub mod number;
pub mod scan;
pub mod token;
pub mod types;
