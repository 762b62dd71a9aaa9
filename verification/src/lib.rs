//! Revision control core of the Lore repository engine: the metadata format,
//! textual diffs, working tree decisions, links, layers, instances, locks and
//! repository configuration, each with a machine-checked contract.

pub mod change;
pub mod errors;
pub mod file;
pub mod hexadecimal;
pub mod instance;
pub mod layer;
pub mod link;
pub mod lock;
pub mod metadata;
pub mod node;
pub mod notification;
pub mod order;
pub mod path;
pub mod registry;
pub mod repository;
pub mod state;
pub mod store;
pub mod text;
pub mod types;
