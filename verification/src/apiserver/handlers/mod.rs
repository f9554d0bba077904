//! What the handlers of the API decide.

pub mod kinds;
pub mod resource;
pub mod delete;
pub mod patch;
pub mod project;
pub mod authorization;
pub mod kubevirt;
pub mod logs;
pub mod token;
pub mod streaming;
