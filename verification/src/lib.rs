pub mod enumerate;
pub mod laws;
