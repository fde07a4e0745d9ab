//! Small verified building blocks: user authentication, parallel number
//! crunching, work splitting, a send queue and some text rendering.

pub mod animals;
pub mod authentication;
pub mod collector;
pub mod login_manager;
pub mod parallel;
pub mod tasks;
pub mod text;
pub mod threads;
pub mod thumbnails;
pub mod user_store;
pub mod variables;
