//! What each command decides, apart from reading input, printing and saving.

pub mod add;
pub mod done;
pub mod update;
