//! riddle: the verified core of a handwriting diary for the reMarkable 2.

pub mod capture;
pub mod device;
pub mod engine;
pub mod events;
pub mod pen;
pub mod script;
pub mod seance;
pub mod text;
pub mod touch;
pub mod xochitl;
