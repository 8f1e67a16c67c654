//! Verified core of a LAN file-transfer tool.
pub mod text;
pub mod num;
pub mod range;
pub mod timefmt;
pub mod sizefmt;
pub mod route;
pub mod assoc;
pub mod shares;
pub mod outside;
pub mod upload;
pub mod batches;
pub mod pages;
pub mod settings;
pub mod cli;
pub mod netaddr;
pub mod shellext;
pub mod reset;
