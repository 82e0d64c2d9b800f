//! Password-based file encryption: the sealed file format, the payload
//! encoding and the naming rules for the files and folders it writes.

pub mod encoding;
pub mod payload;
pub mod crypto;
pub mod text;
pub mod path;
pub mod path_laws;
pub mod naming;
pub mod workflow;
