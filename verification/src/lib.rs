//! Core of a PDF/CBZ to EPUB converter: chapterization, metadata resolution,
//! EPUB package documents and the safety rules for comic archives.
use vstd::prelude::*;

pub mod batch;
pub mod cache;
pub mod cbz;
pub mod comic_info;
pub mod commands;
pub mod epub;
pub mod errors;
pub mod mistral;
pub mod models;
pub mod metadata;
pub mod natural;
pub mod normalize;
pub mod paths;
pub mod patterns;
pub mod pipeline;
pub mod text;
pub mod validate;

verus! {
} // verus!
