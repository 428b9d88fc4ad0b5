pub mod csv;
pub mod text;
