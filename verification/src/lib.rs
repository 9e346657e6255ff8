//! Clipboard history: what is recorded, how it is kept, and how it is picked
//! and pasted again.

pub mod cli;
pub mod digits;
pub mod directory;
pub mod foreign;
pub mod history;
pub mod order;
pub mod paste;
pub mod paths;
pub mod picker;
pub mod picking;
pub mod preview;
pub mod recorder;
pub mod recording;
pub mod session;
pub mod startup;
pub mod text;
