pub mod args;
pub mod assets;
pub mod consistency;
pub mod constants;
pub mod dialogue;
pub mod encoding;
pub mod landscape;
pub mod mesh;
pub mod naming;
pub mod records;
pub mod text;
pub mod utils;
pub mod validation;
pub mod world_gen;
