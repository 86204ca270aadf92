pub mod chars;
pub mod codec;
pub mod driver;
pub mod emit;
pub mod errors;
pub mod escape;
pub mod flatten;
pub mod merge;
pub mod parse;
pub mod value;
