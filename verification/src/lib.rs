//! Verified core of a point cloud explanation tool.
pub mod text;
pub mod modes;
pub mod ranking;
pub mod bidirectional;
pub mod color_map;
pub mod transpose;
pub mod validator;
pub mod filesystem;
pub mod search;
pub mod scene;
pub mod texture;
pub mod commands;
pub mod visualization;
