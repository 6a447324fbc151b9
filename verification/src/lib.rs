//! Protocol core of a text editor's language-server client: framing of the
//! byte stream, the JSON-RPC envelope, correlation of requests with
//! responses, document synchronisation, and routing of server results.

pub mod codec;
pub mod config;
pub mod decode;
pub mod edits;
pub mod framing;
pub mod fs;
pub mod json;
pub mod buffer;
pub mod lsp;
pub mod lsp_ext;
pub mod router;
pub mod theme;

use vstd::prelude::*;

verus! {

/// Process-wide context the editor carries: the workspace root.
pub struct Global {
    pub root_path: crate::fs::LocalPath,
}

/// Where a buffer's contents came from.
pub enum BufferSource {
    Text,
    File { path: crate::fs::LocalPath },
}

impl BufferSource {
    /// The path of a file-backed buffer; a scratch buffer has none.
    pub fn path(&self) -> (r: Option<crate::fs::LocalPath>)
        ensures
            match self {
                BufferSource::Text => r is None,
                BufferSource::File { path } => r matches Some(p) && p.spec_text()
                    == path.spec_text(),
            },
    {
        match self {
            BufferSource::Text => None,
            BufferSource::File { path } => Some(path.duplicate()),
        }
    }
}

} // verus!
