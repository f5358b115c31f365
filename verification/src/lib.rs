//! Verified core of a sandboxed Markdown previewer: percent decoding of
//! asset URLs, the path sandbox rules, MIME lookup, the HTML shell and the
//! decisions taken on IPC messages and navigation requests.

pub mod text;
pub mod mime;
pub mod percent;
pub mod path;
pub mod path_laws;
pub mod render;
pub mod script;
pub mod ipc;
