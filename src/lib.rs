//! A character-grid console: a rectangular window of characters, parametric
//! shapes stamped onto it, and a parser that turns lines of text into typed
//! commands.
pub mod number;
pub mod parser;
pub mod point;
pub mod session;
pub mod shape;
pub mod text;
pub mod window;

pub use parser::{command_from_input, parse_to_command, Commands, ErrorKind, ParseError};
pub use point::Point;
pub use session::{Outcome, Session};
pub use shape::Shape;
pub use window::{Window, DEFAULT_FILL};
