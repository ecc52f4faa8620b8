pub mod ansi;
pub mod highlight;
pub mod json;
pub mod level;
pub mod pointer;
pub mod record;
pub mod render;
pub mod spans;
pub mod text;
