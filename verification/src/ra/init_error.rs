//! Why a workspace cannot be opened.

use crate::text::{cat2, owned};
use vstd::prelude::*;

verus! {

/// Why a workspace cannot be opened.
#[derive(Debug, Clone, PartialEq, Eq)]
pub enum RaHostInitError {
    WorkspaceNotFound { input_path: String, details: String },
    WorkspaceLoad { manifest: String, details: String },
    SemanticBuild { details: String },
}

impl RaHostInitError {
    /// The message for the user.
    pub open spec fn message(self) -> Seq<char> {
        match self {
            RaHostInitError::WorkspaceNotFound { input_path, details } =>
            "workspace manifest not found for `"@ + input_path@ + "`: "@ + details@,
            RaHostInitError::WorkspaceLoad { manifest, details } => "failed to load workspace `"@
                + manifest@ + "`: "@ + details@,
            RaHostInitError::SemanticBuild { details } =>
            "failed to build semantic workspace snapshot: "@ + details@,
        }
    }

    /// The message for the user.
    pub fn to_text(&self) -> (r: String)
        ensures
            r@ == self.message(),
    {
        match self {
            RaHostInitError::WorkspaceNotFound { input_path, details } => {
                let mut out = cat2("workspace manifest not found for `", input_path.as_str());
                out.append("`: ");
                out.append(details.as_str());
                out
            },
            RaHostInitError::WorkspaceLoad { manifest, details } => {
                let mut out = cat2("failed to load workspace `", manifest.as_str());
                out.append("`: ");
                out.append(details.as_str());
                out
            },
            RaHostInitError::SemanticBuild { details } => cat2(
                "failed to build semantic workspace snapshot: ",
                details.as_str(),
            ),
        }
    }
}

/// What became of extracting a snapshot.
#[derive(Debug, Clone, Copy, PartialEq, Eq, Structural)]
pub enum Extraction {
    Finished,
    Cancelled,
}

/// The result of extracting a snapshot: an error where it was cancelled.
pub fn run_snapshot_extraction(outcome: Extraction) -> (r: Result<(), RaHostInitError>)
    ensures
        r is Ok <==> outcome is Finished,
        match r {
            Ok(_) => true,
            Err(RaHostInitError::SemanticBuild { details }) => details@
                == "workspace semantic snapshot build was cancelled"@,
            Err(_) => false,
        },
{
    match outcome {
        Extraction::Finished => Ok(()),
        Extraction::Cancelled => Err(
            RaHostInitError::SemanticBuild {
                details: owned("workspace semantic snapshot build was cancelled"),
            },
        ),
    }
}

} // verus!
