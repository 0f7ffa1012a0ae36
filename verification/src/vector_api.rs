//! Bodies of the vector endpoints and the decisions made on them before the
//! vector engine runs.
use vstd::prelude::*;

verus! {

/// Answer of an upsert request.
pub struct VectorUpsertResponse {
    pub success: bool,
    pub count: usize,
    pub error: Option<String>,
}

/// Body of a delete request: a list in an object, a single fingerprint, or
/// a bare list.
pub enum VectorDeletePayload {
    List { file_fingerprints: Vec<String> },
    Single { file_fingerprint: String },
    RawList(Vec<String>),
}

/// The fingerprints a delete payload names.
pub open spec fn payload_fingerprints(p: VectorDeletePayload) -> Seq<String> {
    match p {
        VectorDeletePayload::List { file_fingerprints } => file_fingerprints@,
        VectorDeletePayload::Single { file_fingerprint } => seq![file_fingerprint],
        VectorDeletePayload::RawList(list) => list@,
    }
}

impl VectorDeletePayload {
    /// The fingerprints to delete.
    pub fn into_fingerprints(self) -> (r: Vec<String>)
        ensures
            r@ == payload_fingerprints(self),
    {
        match self {
            VectorDeletePayload::List { file_fingerprints } => file_fingerprints,
            VectorDeletePayload::Single { file_fingerprint } => {
                let mut v: Vec<String> = Vec::new();
                v.push(file_fingerprint);
                assert(v@ =~= seq![file_fingerprint]);
                v
            },
            VectorDeletePayload::RawList(list) => list,
        }
    }
}

/// Answer of a delete request.
pub struct VectorDeleteResponse {
    pub success: bool,
    pub deleted_count: usize,
    pub error: Option<String>,
}

impl VectorDeleteResponse {
    /// The answer for an empty delete list: success, nothing deleted (the
    /// engine is not called).
    pub fn nothing_to_delete() -> (r: VectorDeleteResponse)
        ensures
            r.success && r.deleted_count == 0 && r.error is None,
    {
        VectorDeleteResponse { success: true, deleted_count: 0, error: None }
    }

    /// The answer after the engine ran: the count deleted, or the error
    /// (HTTP 500).
    pub fn from_outcome(outcome: Result<usize, String>) -> (r: (u16, VectorDeleteResponse))
        ensures
            match outcome {
                Ok(n) => r.0 == 200 && r.1.success && r.1.deleted_count == n && r.1.error is None,
                Err(e) => r.0 == 500 && !r.1.success && r.1.deleted_count == 0 && r.1.error == Some(e),
            },
    {
        match outcome {
            Ok(n) => (200, VectorDeleteResponse { success: true, deleted_count: n, error: None }),
            Err(e) => (500, VectorDeleteResponse { success: false, deleted_count: 0, error: Some(e) }),
        }
    }
}

impl VectorUpsertResponse {
    /// The answer for an empty upsert: success, nothing written.
    pub fn nothing_to_upsert() -> (r: VectorUpsertResponse)
        ensures
            r.success && r.count == 0 && r.error is None,
    {
        VectorUpsertResponse { success: true, count: 0, error: None }
    }

    /// The answer after the engine ran: the count written, or the error
    /// (HTTP 400).
    pub fn from_outcome(outcome: Result<usize, String>) -> (r: (u16, VectorUpsertResponse))
        ensures
            match outcome {
                Ok(n) => r.0 == 200 && r.1.success && r.1.count == n && r.1.error is None,
                Err(e) => r.0 == 400 && !r.1.success && r.1.count == 0 && r.1.error == Some(e),
            },
    {
        match outcome {
            Ok(n) => (200, VectorUpsertResponse { success: true, count: n, error: None }),
            Err(e) => (400, VectorUpsertResponse { success: false, count: 0, error: Some(e) }),
        }
    }
}

/// The candidate passages of one file.
pub struct MatchPassagesItem {
    pub file_fingerprint: String,
    pub passages: Vec<String>,
}

/// Body of a passage alignment request.
pub struct MatchPassagesRequest {
    pub query: String,
    pub items: Vec<MatchPassagesItem>,
}

/// The default number of nearest neighbours returned.
pub fn default_top_k() -> (r: usize)
    ensures
        r == 10,
{
    10
}

} // verus!
