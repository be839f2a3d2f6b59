//! The command line of the client, as plain values.

use std::path::PathBuf;
use vstd::prelude::*;

verus! {

/// What the client is asked to do: which torrent file to download, and
/// where to save what it holds.
#[derive(Debug)]
pub struct Arguments {
    /// The torrent file to use.
    pub torrent: String,
    /// Where to save the downloaded torrents.
    pub output_dir: PathBuf,
}

} // verus!
