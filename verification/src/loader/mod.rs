//! Mesh input: decoding of embedded buffers, assembly of faces from index
//! streams, and validation of loaded meshes.

pub mod gltf_parser;
pub mod validation;
