//! What the program does once the source directory has been looked at.

use crate::scanner::{ScanError, SourceAsset};
use vstd::prelude::*;

verus! {

/// How the program goes on after the scan.
#[derive(Clone, Copy, Debug, PartialEq, Eq, Structural)]
pub enum Startup {
    /// The source directory is missing: create it, tell the operator to put
    /// files there, and end with success.
    CreateDirectory,
    /// The directory holds no video: say so, and end with success.
    NothingFound,
    /// Mount the streams and serve.
    Serve,
}

/// Decides how the program goes on after the scan. A missing directory is
/// no failure, and neither is an empty one: the server runs only where
/// there is something to serve.
pub fn startup(scanned: &Result<Vec<SourceAsset>, ScanError>) -> (r: Startup)
    ensures
        r == match *scanned {
            Err(_) => Startup::CreateDirectory,
            Ok(assets) => if assets@.len() == 0 {
                Startup::NothingFound
            } else {
                Startup::Serve
            },
        },
{
    match scanned {
        Err(_) => Startup::CreateDirectory,
        Ok(assets) => {
            if assets.len() == 0 {
                Startup::NothingFound
            } else {
                Startup::Serve
            }
        },
    }
}

} // verus!
