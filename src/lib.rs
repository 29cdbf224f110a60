//! Backend of an offline translation application: the language catalog, the
//! bookkeeping of package downloads, the routing of translation requests
//! through a hub language, and the command handling that ties them together.

pub mod text;
pub mod index;
pub mod translate;
pub mod download;
pub mod detect;
pub mod session;
