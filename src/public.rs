//! The public description of endpoints: identity and status, with the manifest
//! reduced to the handler names and the base URL left out.
use vstd::prelude::*;

use crate::endpoint::{Endpoint, EndpointId, EndpointStatus, StatusView};

verus! {

/// Status as shown publicly: an `Up` status lists the handler names only.
#[derive(Debug)]
pub enum EndpointStatusPublic {
    Up { checked_at: i64, available_handlers: Vec<String> },
    Down { checked_at: i64, error: String },
    Unknown,
}

pub enum StatusPublicView {
    Up { checked_at: i64, available_handlers: Seq<Seq<char>> },
    Down { checked_at: i64, error: Seq<char> },
    Unknown,
}

impl View for EndpointStatusPublic {
    type V = StatusPublicView;

    open spec fn view(&self) -> StatusPublicView {
        match self {
            EndpointStatusPublic::Up { checked_at, available_handlers } => StatusPublicView::Up {
                checked_at: *checked_at,
                available_handlers: available_handlers@.map_values(|s: String| s@),
            },
            EndpointStatusPublic::Down { checked_at, error } => StatusPublicView::Down {
                checked_at: *checked_at,
                error: error@,
            },
            EndpointStatusPublic::Unknown => StatusPublicView::Unknown,
        }
    }
}

/// The public form of a status.
pub open spec fn public_status_of(s: StatusView) -> StatusPublicView {
    match s {
        StatusView::Up { checked_at, info } => StatusPublicView::Up {
            checked_at,
            available_handlers: info.handlers,
        },
        StatusView::Down { checked_at, error } => StatusPublicView::Down { checked_at, error },
        StatusView::Unknown => StatusPublicView::Unknown,
    }
}

impl EndpointStatusPublic {
    pub fn from_status(status: &EndpointStatus) -> (r: Self)
        ensures
            r@ == public_status_of(status@),
    {
        match status {
            EndpointStatus::Up { checked_at, info } => {
                let info = info.clone();
                EndpointStatusPublic::Up {
                    checked_at: *checked_at,
                    available_handlers: info.available_handlers,
                }
            },
            EndpointStatus::Down { checked_at, error } => EndpointStatusPublic::Down {
                checked_at: *checked_at,
                error: error.clone(),
            },
            EndpointStatus::Unknown => EndpointStatusPublic::Unknown,
        }
    }
}

/// An endpoint as shown publicly.
#[derive(Debug)]
pub struct EndpointPublic {
    pub id: EndpointId,
    pub status: EndpointStatusPublic,
}

impl EndpointPublic {
    pub fn from_endpoint(endpoint: &Endpoint) -> (r: Self)
        ensures
            r.id@ == endpoint@.id,
            r.status@ == public_status_of(endpoint@.status),
    {
        EndpointPublic {
            id: endpoint.id().clone(),
            status: EndpointStatusPublic::from_status(endpoint.status()),
        }
    }
}

/// The public records of `endpoints`, in order.
pub fn public_records(endpoints: &Vec<Endpoint>) -> (r: Vec<EndpointPublic>)
    ensures
        r@.len() == endpoints@.len(),
        forall|i: int|
            0 <= i < r@.len() ==> (#[trigger] r@[i]).id@ == endpoints@[i]@.id && r@[i].status@
                == public_status_of(endpoints@[i]@.status),
{
    let mut out: Vec<EndpointPublic> = Vec::new();
    let mut i: usize = 0;
    while i < endpoints.len()
        invariant
            i <= endpoints@.len(),
            out@.len() == i,
            forall|k: int|
                0 <= k < i ==> (#[trigger] out@[k]).id@ == endpoints@[k]@.id && out@[k].status@
                    == public_status_of(endpoints@[k]@.status),
        decreases endpoints@.len() - i,
    {
        out.push(EndpointPublic::from_endpoint(&endpoints[i]));
        i = i + 1;
    }
    out
}

} // verus!
