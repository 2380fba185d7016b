//! Structural decomposition of absolute `http` URLs.
//!
//! [`url::Url::new`] splits a string of the shape `scheme "://" host ["/" path]`
//! into its parts, and every outcome is pinned to the mathematical description
//! in [`url::parse`]. The searching that the splitting rests on lives in
//! [`text`].

pub mod text;
pub mod url;
