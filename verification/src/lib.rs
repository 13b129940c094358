//! The rules behind `cargo vet`: which packages of a workspace come from elsewhere, what the store
//! holds of them, how reviews are recorded, where package sources are found and unpacked, and
//! which diff is the smallest to review.
//!
//! Every function says in its contract what it returns. What depends on the disk, the network or
//! `git` comes in as an argument, so that the rules hold whatever came back.

pub mod text;
pub mod help;
pub mod version;
pub mod sorted;
pub mod stable_map;
pub mod format;
pub mod metadata;
pub mod certify;
pub mod cli;
pub mod metaconfig;
pub mod place;
pub mod store;
pub mod diffstat;
pub mod diff_cache;
pub mod registry;
pub mod unpack;
pub mod cache;
pub mod recommend;
pub mod request;
pub mod vet;
