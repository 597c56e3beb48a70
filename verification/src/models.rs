//! Plain data carried between the registry, the commands and the caller.

pub mod input_models;
pub mod output_models;
pub mod registry_models;
