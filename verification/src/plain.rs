//! What everything means in plain terms. The contracts elsewhere speak through
//! definitions; the laws here say what those come to, on characters, bytes,
//! numbers, fields and sequences alone. `calls` ties the functions to them.
pub mod calls;
pub mod model;
pub mod service;
pub mod text;
pub mod wire;
