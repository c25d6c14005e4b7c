pub mod lang_def;
pub mod model;
pub mod laws;

