pub mod calculator;
pub mod fibonacci_checker;
pub mod first_reverse;
pub mod letter_changes;
mod text;

pub use crate::calculator::calculator;
pub use crate::fibonacci_checker::fibonacci_checker;
pub use crate::first_reverse::first_reverse;
pub use crate::letter_changes::letter_changes;
