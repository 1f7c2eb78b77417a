//! A small task list: titled tasks that can be added, completed, renamed and
//! rendered as text, with every operation stated over a mathematical model of
//! the list and proved against it.

pub mod commands;
pub mod manager;
pub mod model;
pub mod task;
pub mod text;
