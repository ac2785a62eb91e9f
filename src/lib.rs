pub mod decimal;
pub mod driver;
pub mod expand;
pub mod invocation;
pub mod laws;
pub mod lexical;
pub mod locate;
pub mod parse;
pub mod process;
pub mod token;
