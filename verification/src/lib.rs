//! Reading SGI IRIX software distributions as their native model:
//! distribution, product, image, subsystem and file entry.
pub mod compress;
pub mod descriptor;
pub mod distribution;
pub mod diagnostic;
pub mod error;
pub mod extract;
pub mod frontend;
pub mod idb;
pub mod image;
pub mod names;
pub mod num;
pub mod output;
pub mod mach;
pub mod path;
pub mod plan;
pub mod query;
pub mod selection;
pub mod text;
pub mod wildcard;
