//! Per-request records and the snapshot shape handed across the boundary.

use vstd::prelude::*;

use crate::state::{is_active, RequestState};

verus! {

/// Mathematical view of a [`RequestInfo`]: every text field as a `Seq<char>`.
pub struct RecordView {
    pub request_id: Seq<char>,
    pub state: RequestState,
    pub status: Option<u16>,
    pub headers: Option<Seq<(Seq<char>, Seq<char>)>>,
    pub body: Option<Seq<char>>,
    pub error: Option<Seq<char>>,
    pub last_polled: u64,
    pub created_at: u64,
    pub updated_at: u64,
}

/// View of a header list: each name and value as a `Seq<char>`.
pub open spec fn header_seq(h: Vec<(String, String)>) -> Seq<(Seq<char>, Seq<char>)> {
    h@.map_values(|p: (String, String)| (p.0@, p.1@))
}

/// View of an optional header list.
pub open spec fn headers_view(h: Option<Vec<(String, String)>>) -> Option<
    Seq<(Seq<char>, Seq<char>)>,
> {
    match h {
        Some(v) => Some(v@.map_values(|p: (String, String)| (p.0@, p.1@))),
        None => None,
    }
}

/// View of an optional string.
pub open spec fn opt_string_view(s: Option<String>) -> Option<Seq<char>> {
    match s {
        Some(t) => Some(t@),
        None => None,
    }
}

/// The state snapshot for one request: status, headers, body so far,
/// error and timestamps, all in monotonic seconds.
#[derive(Debug)]
pub struct RequestInfo {
    pub request_id: String,
    pub state: RequestState,
    pub status: Option<u16>,
    pub headers: Option<Vec<(String, String)>>,
    pub body: Option<String>,
    pub error: Option<String>,
    /// Timestamp of the last poll.
    pub last_polled: u64,
    /// Timestamp of creation.
    pub created_at: u64,
    /// Timestamp of the last update.
    pub updated_at: u64,
}

impl View for RequestInfo {
    type V = RecordView;

    open spec fn view(&self) -> RecordView {
        RecordView {
            request_id: self.request_id@,
            state: self.state,
            status: self.status,
            headers: headers_view(self.headers),
            body: opt_string_view(self.body),
            error: opt_string_view(self.error),
            last_polled: self.last_polled,
            created_at: self.created_at,
            updated_at: self.updated_at,
        }
    }
}

impl RecordView {
    /// The record's internal invariant: time moves forward, status and
    /// headers arrive together, and an error message is only present once
    /// the request can no longer succeed.
    pub open spec fn wf(self) -> bool {
        &&& self.updated_at >= self.created_at
        &&& (self.status is Some <==> self.headers is Some)
        &&& (self.error is Some ==> !is_active(self.state) && self.state
            != RequestState::Complete)
    }
}

/// Clone a header list, preserving its view.
pub fn clone_headers(h: &Vec<(String, String)>) -> (r: Vec<(String, String)>)
    ensures
        r@.map_values(|p: (String, String)| (p.0@, p.1@)) == h@.map_values(
            |p: (String, String)| (p.0@, p.1@),
        ),
{
    let mut out: Vec<(String, String)> = Vec::new();
    let mut i: usize = 0;
    while i < h.len()
        invariant
            i <= h@.len(),
            out@.len() == i,
            forall|j: int|
                0 <= j < i ==> out@[j].0@ == h@[j].0@ && out@[j].1@ == h@[j].1@,
        decreases h@.len() - i,
    {
        let k = h[i].0.clone();
        let v = h[i].1.clone();
        out.push((k, v));
        i = i + 1;
    }
    proof {
        assert(out@.map_values(|p: (String, String)| (p.0@, p.1@)) =~= h@.map_values(
            |p: (String, String)| (p.0@, p.1@),
        ));
    }
    out
}

/// Clone an optional string, preserving its view.
pub fn clone_opt_string(s: &Option<String>) -> (r: Option<String>)
    ensures
        opt_string_view(r) == opt_string_view(*s),
{
    match s {
        Some(t) => Some(t.clone()),
        None => None,
    }
}

impl RequestInfo {
    /// A fresh record in `Init` with all response fields empty.
    pub fn fresh(request_id: String, now: u64) -> (r: RequestInfo)
        ensures
            r@ == spec_fresh(request_id@, now),
    {
        RequestInfo {
            request_id,
            state: RequestState::Init,
            status: None,
            headers: None,
            body: None,
            error: None,
            last_polled: now,
            created_at: now,
            updated_at: now,
        }
    }

    /// An independent copy of the record with the same view.
    pub fn snapshot(&self) -> (r: RequestInfo)
        ensures
            r@ == self@,
    {
        RequestInfo {
            request_id: self.request_id.clone(),
            state: self.state,
            status: self.status,
            headers: match &self.headers {
                Some(h) => Some(clone_headers(h)),
                None => None,
            },
            body: clone_opt_string(&self.body),
            error: clone_opt_string(&self.error),
            last_polled: self.last_polled,
            created_at: self.created_at,
            updated_at: self.updated_at,
        }
    }
}

/// The view of a fresh record under the given id and time.
pub open spec fn spec_fresh(request_id: Seq<char>, now: u64) -> RecordView {
    RecordView {
        request_id: request_id,
        state: RequestState::Init,
        status: None,
        headers: None,
        body: None,
        error: None,
        last_polled: now,
        created_at: now,
        updated_at: now,
    }
}

/// The snapshot shape handed to the host:
/// status, headers, body, error, and whether the request completed.
#[derive(Debug)]
pub struct ResponseInfo {
    pub request_id: String,
    pub status: Option<u16>,
    pub headers: Option<Vec<(String, String)>>,
    pub body: Option<String>,
    pub error: Option<String>,
    pub completed: bool,
}

impl ResponseInfo {
    /// Build the outbound snapshot of a record.  `completed` is true
    /// exactly when the record reached `Complete`.
    pub fn of_record(info: &RequestInfo) -> (r: ResponseInfo)
        ensures
            r.request_id@ == info@.request_id,
            r.status == info@.status,
            headers_view(r.headers) == info@.headers,
            opt_string_view(r.body) == info@.body,
            opt_string_view(r.error) == info@.error,
            r.completed == (info@.state == RequestState::Complete),
    {
        ResponseInfo {
            request_id: info.request_id.clone(),
            status: info.status,
            headers: match &info.headers {
                Some(h) => Some(clone_headers(h)),
                None => None,
            },
            body: clone_opt_string(&info.body),
            error: clone_opt_string(&info.error),
            completed: match info.state {
                RequestState::Complete => true,
                _ => false,
            },
        }
    }
}

} // verus!
