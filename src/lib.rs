pub mod config;
pub mod digest;
pub mod gis;
pub mod laws;
pub mod text;
