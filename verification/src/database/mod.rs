pub mod error;

pub use error::{DatabaseError, EMPTY_STORE};
