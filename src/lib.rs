//! Discovery of the profiles of Gecko-based browsers from their `profiles.ini` registries.

pub mod catalog;
pub mod paths;
pub mod registry;
pub mod text;
