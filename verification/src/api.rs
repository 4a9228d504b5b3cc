//! The caller-facing request shapes of the transport layer: plain
//! parameter and state records. The transport itself (routing,
//! serialization, the cluster) stays outside the library.

use vstd::prelude::*;

verus! {

/// An opaque, text-encoded saved conversation state, as handed back to the
/// caller.
#[derive(Debug, Clone)]
pub struct EncodedSavedState(pub String);

/// Parameters of a conversational request.
#[derive(Debug, Clone)]
pub struct AliceParams {
    pub message: String,
    pub optic: Option<String>,
    pub prev_state: Option<EncodedSavedState>,
}

/// A widget request.
#[derive(Debug, Clone)]
pub struct WidgetQuery {
    pub query: String,
}

/// A sidebar request.
#[derive(Debug, Clone)]
pub struct SidebarQuery {
    pub query: String,
}

/// A spell-check request.
#[derive(Debug, Clone)]
pub struct SpellcheckQuery {
    pub query: String,
}

/// Parameters of an entity-image request.
#[derive(Debug, Clone)]
pub struct EntityImageParams {
    pub image_id: String,
    pub max_width: Option<u64>,
    pub max_height: Option<u64>,
}

/// Parameters of a similar-hosts request.
#[derive(Debug, Clone)]
pub struct SimilarHostsParams {
    pub hosts: Vec<String>,
    pub top_n: usize,
}

/// Parameters of a known-host request.
#[derive(Debug, Clone)]
pub struct KnowsHostParams {
    pub host: String,
}

/// Parameters of a host-links request.
#[derive(Debug, Clone)]
pub struct HostLinksParams {
    pub host: String,
}

/// Parameters of a page-links request.
#[derive(Debug, Clone)]
pub struct PageLinksParams {
    pub page: String,
}

/// Whether the web graph knows a host.
#[derive(Debug, Clone)]
pub enum KnowsHost {
    Known { host: String },
    Unknown,
}

/// Handle to a web graph served elsewhere; the graph itself is an external
/// collaborator.
#[derive(Debug)]
pub struct RemoteWebgraph {
    pub host: Option<String>,
}

impl RemoteWebgraph {
    pub fn new(host: Option<String>) -> (r: RemoteWebgraph)
        ensures
            r.host == host,
    {
        RemoteWebgraph { host }
    }
}

/// A map-reduce worker with no state of its own.
#[derive(Debug)]
pub struct StatelessWorker {}

impl Default for StatelessWorker {
    fn default() -> (r: StatelessWorker) {
        StatelessWorker {  }
    }
}

} // verus!
