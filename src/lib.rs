//! Small verified programs: an employee directory driven by typed commands,
//! together with a handful of compact exercises on numbers, text and shapes.
pub mod text;
pub mod directory;
pub mod command;
pub mod interpreter;

pub mod adder;
pub mod generics;
pub mod guessing;
pub mod numbers;
pub mod ownership;
pub mod restaurant;
pub mod shapes;
pub mod stats;
