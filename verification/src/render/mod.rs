//! Rendering: from the parsed slide AST to styled terminal text.
pub mod style;
pub mod wrap;
pub mod dark_plus;
pub mod highlight;
pub mod slide;
pub mod table;
