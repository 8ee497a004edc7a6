//! Request-time dispatch: picking one eligible endpoint for a handler and the
//! URL a request is forwarded to.
use vstd::prelude::*;
use vstd::string::StringSliceAdditionalSpecFns;

use crate::endpoint::{handler_url_of, Endpoint, EndpointId, EndpointView};
use crate::public::{public_status_of, EndpointPublic};
use crate::text::str_eq;
use crate::watcher::{eligible_of, views, EndpointWatcher};

verus! {

pub const NO_LIVE_ENDPOINT_MESSAGE: &'static str = "No live endpoints found supporting that handler";

pub const INFO_UNAVAILABLE_MESSAGE: &'static str = "Endpoint info not available";

pub const PROXY_ERROR_PREFIX: &'static str = "Failed to proxy request: ";

/// What to do with a request for a handler.
#[derive(Debug)]
pub enum DispatchPlan {
    /// No enabled, live endpoint advertises the handler (404).
    NoLiveEndpoint,
    /// The chosen endpoint has no manifest any more (500).
    InfoUnavailable,
    /// Forward to `target_url`, with `Host` set to `host`.
    Forward { endpoint_id: EndpointId, target_url: String, host: String },
}

pub enum PlanView {
    NoLiveEndpoint,
    InfoUnavailable,
    Forward { endpoint_id: Seq<char>, target_url: Seq<char>, host: Seq<char> },
}

impl View for DispatchPlan {
    type V = PlanView;

    open spec fn view(&self) -> PlanView {
        match self {
            DispatchPlan::NoLiveEndpoint => PlanView::NoLiveEndpoint,
            DispatchPlan::InfoUnavailable => PlanView::InfoUnavailable,
            DispatchPlan::Forward { endpoint_id, target_url, host } => PlanView::Forward {
                endpoint_id: endpoint_id@,
                target_url: target_url@,
                host: host@,
            },
        }
    }
}

/// The index that the draw `draw` selects among `len` candidates.
pub open spec fn pick_of(len: nat, draw: nat) -> nat {
    draw % len
}

/// The plan for a request for `handler` among the `eligible` endpoints, with the
/// selection decided by `draw`.
pub open spec fn plan_of(eligible: Seq<EndpointView>, handler: Seq<char>, draw: nat) -> PlanView {
    if eligible.len() == 0 {
        PlanView::NoLiveEndpoint
    } else {
        let e = eligible[pick_of(eligible.len(), draw) as int];
        match handler_url_of(e, handler) {
            Some(u) => PlanView::Forward { endpoint_id: e.id, target_url: u, host: e.url.host },
            None => PlanView::InfoUnavailable,
        }
    }
}

impl DispatchPlan {
    /// The status code and message of a plan that does not forward.
    pub fn failure(&self) -> (r: Option<(u16, &'static str)>)
        ensures
            self@ is NoLiveEndpoint ==> r == Some((404u16, NO_LIVE_ENDPOINT_MESSAGE)),
            self@ is InfoUnavailable ==> r == Some((500u16, INFO_UNAVAILABLE_MESSAGE)),
            self@ is Forward ==> r is None,
    {
        match self {
            DispatchPlan::NoLiveEndpoint => Some((404, NO_LIVE_ENDPOINT_MESSAGE)),
            DispatchPlan::InfoUnavailable => Some((500, INFO_UNAVAILABLE_MESSAGE)),
            DispatchPlan::Forward { .. } => None,
        }
    }
}

/// The body of the 500 response sent when forwarding fails with `error`.
pub fn proxy_error_message(error: &str) -> (r: String)
    ensures
        r@ == PROXY_ERROR_PREFIX@ + error@,
{
    let mut m = String::from_str(PROXY_ERROR_PREFIX);
    m.append(error);
    m
}

/// The index that `draw` selects among `len` candidates.
pub fn pick_index(len: usize, draw: usize) -> (r: usize)
    requires
        len > 0,
    ensures
        r == pick_of(len as nat, draw as nat),
        r < len,
{
    draw % len
}

/// The plan for a request for `handler` among `eligible`, selecting by `draw`.
pub fn plan_dispatch(eligible: &Vec<Endpoint>, handler: &str, draw: usize) -> (r: DispatchPlan)
    ensures
        r@ == plan_of(views(eligible@), handler@, draw as nat),
{
    if eligible.len() == 0 {
        return DispatchPlan::NoLiveEndpoint;
    }
    let k = pick_index(eligible.len(), draw);
    let e = &eligible[k];
    assert(views(eligible@)[k as int] == e@);
    match e.handler_url(handler) {
        Some(target_url) => DispatchPlan::Forward {
            endpoint_id: e.id().clone(),
            target_url,
            host: String::from_str(e.base_url().host()),
        },
        None => DispatchPlan::InfoUnavailable,
    }
}

/// Relies on rand::thread_rng and rand::Rng::gen_range: a value drawn from
/// `0..bound`, which must not be empty.
#[verifier::external_body]
fn random_below(bound: usize) -> (r: usize)
    requires
        bound > 0,
    ensures
        r < bound,
{
    rand::Rng::gen_range(&mut rand::thread_rng(), 0..bound)
}

impl EndpointWatcher {
    /// The plan for a request for `handler`, selecting among the eligible
    /// endpoints by `draw`.
    pub fn dispatch(&self, handler: &str, draw: usize) -> (r: DispatchPlan)
        ensures
            r@ == plan_of(eligible_of(self@, handler@), handler@, draw as nat),
    {
        let eligible = self.endpoints_supporting_handler(handler);
        plan_dispatch(&eligible, handler, draw)
    }

    /// The plan for a request for `handler`, selecting among the eligible
    /// endpoints at random.
    pub fn dispatch_random(&self, handler: &str) -> (r: DispatchPlan)
        ensures
            exists|draw: nat|
                r@ == #[trigger] plan_of(eligible_of(self@, handler@), handler@, draw),
    {
        let eligible = self.endpoints_supporting_handler(handler);
        let draw = if eligible.len() == 0 {
            0
        } else {
            random_below(eligible.len())
        };
        plan_dispatch(&eligible, handler, draw)
    }

    /// The public record of the endpoint that `draw` selects among those
    /// eligible for `handler`; none when there is none.
    pub fn pick_public(&self, handler: &str, draw: usize) -> (r: Option<EndpointPublic>)
        ensures
            r is None <==> eligible_of(self@, handler@).len() == 0,
            r is Some ==> ({
                let el = eligible_of(self@, handler@);
                let e = el[pick_of(el.len(), draw as nat) as int];
                r->Some_0.id@ == e.id && r->Some_0.status@ == public_status_of(e.status)
            }),
    {
        let eligible = self.endpoints_supporting_handler(handler);
        if eligible.len() == 0 {
            return None;
        }
        let k = pick_index(eligible.len(), draw);
        assert(views(eligible@)[k as int] == eligible@[k as int]@);
        Some(EndpointPublic::from_endpoint(&eligible[k]))
    }

    /// The public record of an endpoint eligible for `handler`, picked at random.
    pub fn pick_public_random(&self, handler: &str) -> (r: Option<EndpointPublic>)
        ensures
            r is None <==> eligible_of(self@, handler@).len() == 0,
            r is Some ==> exists|i: int|
                0 <= i < eligible_of(self@, handler@).len() && r->Some_0.id@ == #[trigger] eligible_of(
                    self@,
                    handler@,
                )[i].id,
    {
        let n = self.endpoints_supporting_handler(handler).len();
        let draw = if n == 0 {
            0
        } else {
            random_below(n)
        };
        self.pick_public(handler, draw)
    }
}

/// A header list as names and value bytes.
pub open spec fn header_views(h: Seq<(String, Vec<u8>)>) -> Seq<(Seq<char>, Seq<u8>)> {
    h.map_values(|p: (String, Vec<u8>)| (p.0@, p.1@))
}

/// The headers of `h` other than `host`, in order (names are lower case).
pub open spec fn without_host(h: Seq<(Seq<char>, Seq<u8>)>) -> Seq<(Seq<char>, Seq<u8>)>
    decreases h.len(),
{
    if h.len() == 0 {
        Seq::empty()
    } else {
        let rest = without_host(h.drop_last());
        if h.last().0 != "host"@ {
            rest.push(h.last())
        } else {
            rest
        }
    }
}

/// The headers sent upstream: the inbound ones, with `host` set to the chosen
/// backend's host.
pub open spec fn forwarded_headers_of(h: Seq<(Seq<char>, Seq<u8>)>, host: Seq<u8>) -> Seq<
    (Seq<char>, Seq<u8>),
> {
    without_host(h).push(("host"@, host))
}

/// The headers to send upstream: `inbound` (lower-case names) without its
/// `host` entries, followed by `host` set to the backend's host.
pub fn forward_headers(inbound: &Vec<(String, Vec<u8>)>, host: &str) -> (r: Vec<(String, Vec<u8>)>)
    ensures
        header_views(r@) == forwarded_headers_of(header_views(inbound@), host.spec_bytes()),
{
    let mut out: Vec<(String, Vec<u8>)> = Vec::new();
    let mut i: usize = 0;
    while i < inbound.len()
        invariant
            i <= inbound@.len(),
            header_views(out@) == without_host(header_views(inbound@).subrange(0, i as int)),
        decreases inbound@.len() - i,
    {
        let ghost hv = header_views(inbound@);
        assert(hv.subrange(0, i + 1).drop_last() =~= hv.subrange(0, i as int));
        assert(hv[i as int] == (inbound@[i as int].0@, inbound@[i as int].1@));
        let name = inbound[i].0.clone();
        if !str_eq(name.as_str(), "host") {
            let value = inbound[i].1.clone();
            assert(value@ =~= inbound@[i as int].1@);
            let ghost before = out@;
            out.push((name, value));
            assert(header_views(out@) =~= header_views(before).push(hv[i as int]));
        }
        i = i + 1;
    }
    assert(header_views(inbound@).subrange(0, i as int) =~= header_views(inbound@));
    let ghost before = out@;
    let bytes = host.as_bytes_vec();
    out.push((String::from_str("host"), bytes));
    assert(header_views(out@) =~= header_views(before).push(("host"@, host.spec_bytes())));
    out
}

/// How many of the draws `0..m` select index `i` among `k` candidates.
pub open spec fn pick_count(k: nat, m: nat, i: nat) -> nat
    decreases m,
{
    if m == 0 {
        0
    } else {
        pick_count(k, (m - 1) as nat, i) + if pick_of(k, (m - 1) as nat) == i {
            1nat
        } else {
            0nat
        }
    }
}

proof fn lemma_pick_count_block(k: nat, n: nat, i: nat, j: nat)
    requires
        k > 0,
        i < k,
        j <= k,
    ensures
        pick_count(k, n * k + j, i) == pick_count(k, n * k, i) + if i < j {
            1nat
        } else {
            0nat
        },
    decreases j,
{
    if j > 0 {
        lemma_pick_count_block(k, n, i, (j - 1) as nat);
        let d: int = n * k + (j - 1);
        vstd::arithmetic::div_mod::lemma_mod_multiples_vanish(n as int, (j - 1) as int, k as int);
        vstd::arithmetic::div_mod::lemma_small_mod((j - 1) as nat, k);
        assert(k * n == n * k) by (nonlinear_arith);
        assert(d % (k as int) == j - 1);
        assert(((n * k + j) - 1) as nat == d);
    }
}

/// Selection is uniform over the eligible endpoints: among the draws `0..n*k`,
/// each of `k` candidates is selected by exactly `n`.
pub proof fn lemma_each_pick_equally_often(k: nat, n: nat, i: nat)
    requires
        k > 0,
        i < k,
    ensures
        pick_count(k, n * k, i) == n,
    decreases n,
{
    if n > 0 {
        let m = (n - 1) as nat;
        lemma_each_pick_equally_often(k, m, i);
        lemma_pick_count_block(k, m, i, k);
        assert(m * k + k == n * k) by (nonlinear_arith)
            requires
                m + 1 == n,
        ;
    } else {
        assert(n * k == 0) by (nonlinear_arith)
            requires
                n == 0,
        ;
    }
}

} // verus!
