//! The engines that read the spot exchange's book.

pub mod radar;
