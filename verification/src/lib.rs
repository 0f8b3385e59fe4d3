//! Verified core of the Zenith document toolchain.

pub mod text;
pub mod inline;
pub mod markdown;
pub mod span;
pub mod policy;
pub mod brand;
pub mod asset;
pub mod token;
pub mod document;
pub mod config;
pub mod render;
pub mod kdl;
pub mod library;
pub mod listing;
pub mod table;
pub mod data;
pub mod pipeline;
pub mod validate;
pub mod fonts;
pub mod policy_file;
pub mod paths;
pub mod cli;
