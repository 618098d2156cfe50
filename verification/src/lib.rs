//! Download logic of a file-hoster client, proved with Verus.

pub mod clock;
pub mod control;
pub mod links;
pub mod messages;
pub mod natural;
pub mod page;
pub mod parallel;
pub mod ranges;
pub mod registry;
pub mod resolver;
pub mod table;
pub mod text;
pub mod transfer;
pub mod wire;
