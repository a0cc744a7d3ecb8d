//! What the command line can ask for.
pub mod base64_opts;
pub mod csv;
pub mod genpass;
pub mod text;
