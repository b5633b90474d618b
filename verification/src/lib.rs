//! Flattening of JSON objects.
//!
//! A nested JSON object is turned into an object of one level, whose keys spell
//! the path to each value of the input. The string that joins the parts of a
//! path and the way array positions are written can be configured, as can the
//! fate of empty arrays and objects.
//!
//! - Empty arrays and objects are left out unless the flattener is told to
//!   preserve them.
//! - The empty key `""` and the value `null` are kept as they are.
//! - Where a value would be written under a key that is in use, flattening
//!   fails: no key of the result is written twice.
//! - Only an object can be flattened; it may hold any JSON.
//!
//! With the separator `.` and array positions between `[` and `]`, the object
//! `{"a": {"b": [1, "c", null, {}, []], "": "x"}, "": "y"}` flattens to
//! `{"a.b[0]": 1, "a.b[1]": "c", "a.b[2]": null, "a.": "x", "": "y"}`.
//!
//! What flattening computes is defined in [`model`], over JSON documents as
//! mathematical values; [`Flattener::flatten`] is proved to compute it, and
//! [`laws`] holds what follows for every input.

pub mod error;
pub mod flattener;
pub mod json;
pub mod keys;
pub mod laws;
pub mod lemmas;
pub mod model;

pub use crate::flattener::ArrayFormatting;
pub use crate::flattener::Flattener;
