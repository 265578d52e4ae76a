pub mod text;
pub mod number;
pub mod blacklist;
pub mod ghci;
pub mod image;
pub mod reply;
pub mod interface;
pub mod heartbeat;
pub mod blacklist_command;
