//! Discovery and orchestration engine for bulk-updating MoonBit package
//! dependencies across a tree of repositories.

pub mod discover;
pub mod ignore;
pub mod justfile;
pub mod manifest;
pub mod model;
pub mod orchestrator;
pub mod order;
pub mod path;
pub mod plan;
pub mod report;
pub mod scanner;
pub mod sorting;
pub mod text;
pub mod tool;
pub mod worker;
