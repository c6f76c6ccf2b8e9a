//! Editor support library: extension manifests, completion data and
//! suggestions, the debugger session, project detection, tab bookkeeping,
//! audio players and a file cache, each with a verified contract.

pub mod file_cache;
pub mod paths;
pub mod lexical;
pub mod text;
pub mod extensions;
pub mod audio;
pub mod completion;
pub mod debugger;
pub mod handlers;
