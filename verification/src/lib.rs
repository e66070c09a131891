use vstd::prelude::*;

pub mod browser;
pub mod cli;
pub mod content;
pub mod converter;
pub mod dedup;
pub mod dom;
pub mod error;
pub mod http;
pub mod pattern;
pub mod pipeline;
pub mod text;
pub mod urls;

pub use converter::Converter;
pub use error::Error;
