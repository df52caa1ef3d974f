pub mod acc;
pub mod text;
pub mod width;
