pub mod text;
pub mod obj;
pub mod mesh_file;
pub mod geometry;
pub mod asset;
pub mod request;
pub mod capture;
pub mod preview;
