pub mod strings;
pub mod table;
pub mod primitive;
pub mod config;
pub mod resolver;
pub mod paths;
pub mod metadata;
pub mod protoc;
pub mod server;
pub mod context;
pub mod layout;
