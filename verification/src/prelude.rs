//! `use bitkit::prelude::*;` to import the common types.

pub use crate::{BitError, Flags, IntoBitRange};
