pub mod hex;
pub mod text;
