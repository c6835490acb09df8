//! Verified core of a CAD model viewer: the bounded model cache, the
//! tessellation cache and the conversion of triangulated shells into
//! render parts, together with the integer and string logic around them.

pub mod cache;
pub mod mesh;
pub mod model;
pub mod parser;
pub mod render;
pub mod storage;
pub mod tessellation;
