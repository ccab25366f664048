pub mod text;
pub mod ip;
pub mod routes;
pub mod yaml;
pub mod tomldoc;
pub mod manifest;
pub mod toml_manifest;
