pub mod app;
pub mod handler;
pub mod links;
pub mod markup;
pub mod parser;
pub mod text;
pub mod util;
