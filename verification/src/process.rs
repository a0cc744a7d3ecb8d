//! What the commands compute, between reading their input and writing their output.
pub mod process_base64;
pub mod process_csv;
pub mod process_http;
pub mod process_text;
