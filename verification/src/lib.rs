//! A verified core for a small package manager that indexes Alpine-style
//! package repositories: it extracts package records from repository listing
//! pages, decomposes archive filenames into name and version, merges the
//! results into a registry, and resolves user queries against that registry.

pub mod text;
pub mod decompose;
pub mod registry;
pub mod parser;
pub mod download;
pub mod paths;
