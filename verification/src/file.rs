//! Commands on files of the working tree.

pub mod diff;
pub mod dump;
pub mod hash;
pub mod history;
pub mod info;
pub mod reset;
pub mod unstage;
