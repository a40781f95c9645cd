//! The typed structures of a VMF document and their conversions.
pub mod common;
pub mod metadata;
pub mod regions;
pub mod world;
pub mod entities;
