//! An interpreter for the eight-instruction tape language, with its
//! bracket matching and its single-step transition proved against a
//! mathematical model of the machine.
pub mod brackets;
pub mod interpreter;
pub mod theorems;
