//! Line-ending normalization for the files of a directory tree: the rules
//! that pick each file's style, the test that tells text from binary, and the
//! conversion itself.

pub mod convert;
pub mod ignore_filter;
pub mod inspector;
pub mod paths;
pub mod patterns;
pub mod report;
pub mod rules;
pub mod text;
pub mod walk;
