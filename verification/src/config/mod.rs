pub mod calendar;
pub mod date_input;
pub mod error;

pub use date_input::{parse_datetime_input, DateTimeInput, DateTimePrompt};
pub use error::{ConfigError, DateField};
