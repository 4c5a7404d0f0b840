//! A small string-composition engine for building CSS-style class-name
//! strings out of literal and conditionally-included fragments, producing a
//! single normalized, space-separated string.
//!
//! The [`normalize`] module canonicalizes arbitrary runs of whitespace into
//! single-space-separated tokens; the [`fragments`] module evaluates
//! heterogeneous fragment descriptors into present-or-absent contributions
//! and joins them.

pub mod fragments;
pub mod normalize;
