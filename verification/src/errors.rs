//! The error kinds of the supervision and orchestration core, with a
//! verified textual rendering used by callers and by the network
//! route's failure body.

use vstd::prelude::*;

verus! {

use crate::relay::StreamKind;

/// Everything that the supervision and orchestration operations can
/// report. Port reaping never fails, so it has no kind here.
#[derive(Debug)]
pub enum HubError {
    /// The identifier is not in the static application table.
    UnknownApp(String),
    /// The application's working directory does not exist.
    DirectoryNotFound(String),
    /// The OS refused to spawn the child; carries the identifier and
    /// the OS error text.
    SpawnFailed(String, String),
    /// An output stream of a fresh child had already been consumed.
    StreamCaptureFailed(StreamKind),
    /// `kill` found no live entry for the identifier.
    NotRunning(String),
    /// The shared resource artifact is absent; carries its path.
    ResourceNotFound(String),
    /// The artifact is present but failed to load; carries the
    /// loader's error text.
    ResourceLoadFailed(String),
    /// The generation step reported a failure of its own.
    InferenceFailed(String),
}

/// The textual rendering of each error kind.
pub open spec fn message_spec(e: HubError) -> Seq<char> {
    match e {
        HubError::UnknownApp(id) => "Unknown app ID: "@ + id@,
        HubError::DirectoryNotFound(path) => "App directory not found: "@ + path@,
        HubError::SpawnFailed(id, os) => "Failed to spawn "@ + id@ + ": "@ + os@,
        HubError::StreamCaptureFailed(k) => match k {
            StreamKind::Stdout => "Failed to capture stdout"@,
            StreamKind::Stderr => "Failed to capture stderr"@,
        },
        HubError::NotRunning(id) => "App '"@ + id@ + "' is not running"@,
        HubError::ResourceNotFound(path) => "Model file not found at: "@ + path@,
        HubError::ResourceLoadFailed(detail) => "Failed to load model: "@ + detail@,
        HubError::InferenceFailed(detail) => "Inference failed: "@ + detail@,
    }
}

impl HubError {
    /// Renders the error as text. The text is never empty, which the
    /// network route relies on for its failure body.
    pub fn message(&self) -> (r: String)
        ensures
            r@ == message_spec(*self),
            r@.len() > 0,
    {
        match self {
            HubError::UnknownApp(id) => {
                proof {
                    reveal_strlit("Unknown app ID: ");
                }
                let mut m = String::new();
                m.append("Unknown app ID: ");
                m.append(id.as_str());
                assert(m@ =~= message_spec(*self));
                m
            },
            HubError::DirectoryNotFound(path) => {
                proof {
                    reveal_strlit("App directory not found: ");
                }
                let mut m = String::new();
                m.append("App directory not found: ");
                m.append(path.as_str());
                assert(m@ =~= message_spec(*self));
                m
            },
            HubError::SpawnFailed(id, os) => {
                proof {
                    reveal_strlit("Failed to spawn ");
                }
                let mut m = String::new();
                m.append("Failed to spawn ");
                m.append(id.as_str());
                m.append(": ");
                m.append(os.as_str());
                assert(m@ =~= message_spec(*self));
                m
            },
            HubError::StreamCaptureFailed(k) => match k {
                StreamKind::Stdout => {
                    proof {
                        reveal_strlit("Failed to capture stdout");
                    }
                    let m = "Failed to capture stdout".to_owned();
                    assert(m@ =~= message_spec(*self));
                    m
                },
                StreamKind::Stderr => {
                    proof {
                        reveal_strlit("Failed to capture stderr");
                    }
                    let m = "Failed to capture stderr".to_owned();
                    assert(m@ =~= message_spec(*self));
                    m
                },
            },
            HubError::NotRunning(id) => {
                proof {
                    reveal_strlit("App '");
                }
                let mut m = String::new();
                m.append("App '");
                m.append(id.as_str());
                m.append("' is not running");
                assert(m@ =~= message_spec(*self));
                m
            },
            HubError::ResourceNotFound(path) => {
                proof {
                    reveal_strlit("Model file not found at: ");
                }
                let mut m = String::new();
                m.append("Model file not found at: ");
                m.append(path.as_str());
                assert(m@ =~= message_spec(*self));
                m
            },
            HubError::ResourceLoadFailed(detail) => {
                proof {
                    reveal_strlit("Failed to load model: ");
                }
                let mut m = String::new();
                m.append("Failed to load model: ");
                m.append(detail.as_str());
                assert(m@ =~= message_spec(*self));
                m
            },
            HubError::InferenceFailed(detail) => {
                proof {
                    reveal_strlit("Inference failed: ");
                }
                let mut m = String::new();
                m.append("Inference failed: ");
                m.append(detail.as_str());
                assert(m@ =~= message_spec(*self));
                m
            },
        }
    }
}

} // verus!
