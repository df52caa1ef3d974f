pub mod highlighter;
pub mod nord;
