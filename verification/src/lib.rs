//! Verified core of the QPM package manager.

pub mod identifiers;
pub mod text;
pub mod keyed;
pub mod version;
pub mod ranges;
pub mod laws;
pub mod android;
pub mod ndk;
pub mod toggle;
pub mod github;
pub mod update;
pub mod cmake;
pub mod package;
pub mod resolver;
pub mod versions;
pub mod repository;
pub mod publish;
pub mod qpackages;
pub mod git;
pub mod workspace;
pub mod cache;
