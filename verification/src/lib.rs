//! The front of the SimplicityHL compiler: the version directive of a file, unstable
//! features, errors and how they are shown, and the way from a source text to a template, to
//! a compiled program and to a satisfied one.
//!
//! The parser, the analysis and the translation to Simplicity are handed in as a
//! [`frontend::Frontend`].
pub mod agreement;
pub mod assignment;
pub mod blank;
pub mod directive;
pub mod error;
pub mod expansion;
pub mod frontend;
pub mod layout;
pub mod loading;
pub mod parsing;
pub mod placement;
pub mod program;
pub mod render;
pub mod requirement;
pub mod source;
pub mod stages;
pub mod text;
pub mod unstable;
pub mod version;
pub mod wording;

pub use crate::program::{AbiMeta, CompiledProgram, SatisfiedProgram, TemplateProgram};
pub use crate::unstable::{UnstableFeature, UnstableFeatures};
