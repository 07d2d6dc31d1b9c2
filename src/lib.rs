//! A standard 52-card deck: building it, shuffling it, dealing from it and
//! asking what is left in it, with parsing of suit and rank names.

pub mod card;
pub mod deck;
pub mod properties;
pub mod text;
