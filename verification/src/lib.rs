//! Serving a folder over the network and browsing it from elsewhere: the listings,
//! selections, downloads, paths and settings of the file server and its clients.
use vstd::prelude::*;

pub mod browse;
pub mod delivery;
pub mod extensions;
pub mod icons;
pub mod lsblk;
pub mod media;
pub mod order;
pub mod pages;
pub mod path;
pub mod prerequisites;
pub mod queue;
pub mod screens;
pub mod select;
pub mod server;
pub mod text;
pub mod transfer;
pub mod unit;

verus! {
}
