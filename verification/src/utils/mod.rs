pub mod addr;
pub mod chars;
pub mod laws;
pub mod maps;
pub mod parse;
pub mod stream;
pub mod text;
pub mod text_laws;
pub mod wire;
