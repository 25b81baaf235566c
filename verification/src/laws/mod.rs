//! What holds of the library as a whole.
pub mod answers;
pub mod blocks;
pub mod content;
pub mod conversation;
pub mod ending;
pub mod kinds;
pub mod network;
pub mod orders;
pub mod parts;
pub mod reading;
pub mod requests;
pub mod steps;
pub mod texts;
pub mod turns;
pub mod views;
