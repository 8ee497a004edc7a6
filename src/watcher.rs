//! The registry of endpoints: snapshots, capability filtering, and the mutations
//! that operators and the probe loop make.
use vstd::prelude::*;

use crate::endpoint::{
    probe_step, status_after_probe, supports_handler_of, Endpoint, EndpointId, EndpointUrl,
    EndpointView, ProbeOutcome, StatusView, UrlView,
};
use crate::text::str_eq;

verus! {

/// The states of a sequence of endpoints.
pub open spec fn views(s: Seq<Endpoint>) -> Seq<EndpointView> {
    s.map_values(|e: Endpoint| e@)
}

proof fn lemma_views_push(s: Seq<Endpoint>, e: Endpoint)
    ensures
        views(s.push(e)) == views(s).push(e@),
{
    assert(views(s.push(e)) =~= views(s).push(e@));
}

/// Endpoints that may serve `handler`: enabled, up, and advertising it; in order.
pub open spec fn eligible_of(s: Seq<EndpointView>, handler: Seq<char>) -> Seq<EndpointView>
    decreases s.len(),
{
    if s.len() == 0 {
        Seq::empty()
    } else {
        let e = s.last();
        let rest = eligible_of(s.drop_last(), handler);
        if !e.disabled && supports_handler_of(e, handler) {
            rest.push(e)
        } else {
            rest
        }
    }
}

/// The endpoints of `s` whose id is not `id`, in order.
pub open spec fn without_id(s: Seq<EndpointView>, id: Seq<char>) -> Seq<EndpointView>
    decreases s.len(),
{
    if s.len() == 0 {
        Seq::empty()
    } else {
        let rest = without_id(s.drop_last(), id);
        if s.last().id != id {
            rest.push(s.last())
        } else {
            rest
        }
    }
}

/// Id and URL of each enabled endpoint, in order: what a probe tick visits.
pub open spec fn probe_targets_of(s: Seq<EndpointView>) -> Seq<(Seq<char>, UrlView)>
    decreases s.len(),
{
    if s.len() == 0 {
        Seq::empty()
    } else {
        let rest = probe_targets_of(s.drop_last());
        if !s.last().disabled {
            rest.push((s.last().id, s.last().url))
        } else {
            rest
        }
    }
}

/// Whether some endpoint of `s` has the base URL `href`.
pub open spec fn has_url(s: Seq<EndpointView>, href: Seq<char>) -> bool {
    exists|i: int| 0 <= i < s.len() && #[trigger] s[i].url.href == href
}

/// Whether some endpoint of `s` has the id `id`.
pub open spec fn has_id(s: Seq<EndpointView>, id: Seq<char>) -> bool {
    exists|i: int| 0 <= i < s.len() && #[trigger] s[i].id == id
}

/// The registry that seeding with `s`, in order, gives: an endpoint whose base
/// URL or id is already present is skipped.
pub open spec fn seeded(s: Seq<EndpointView>) -> Seq<EndpointView>
    decreases s.len(),
{
    if s.len() == 0 {
        Seq::empty()
    } else {
        let prev = seeded(s.drop_last());
        if !has_url(prev, s.last().url.href) && !has_id(prev, s.last().id) {
            prev.push(s.last())
        } else {
            prev
        }
    }
}

/// What adding `e` to the registry `before` does, given the result `added`: it is
/// refused exactly when its base URL or its id is already present; otherwise
/// `e`, once probed, is appended.
pub open spec fn add_effect(
    before: Seq<EndpointView>,
    e: EndpointView,
    added: bool,
    after: Seq<EndpointView>,
) -> bool {
    &&& added == (!has_url(before, e.url.href) && !has_id(before, e.id))
    &&& !added ==> after == before
    &&& added ==> after.len() == before.len() + 1 && after.drop_last() == before && probe_step(
        e,
        after.last(),
    )
}

/// Adding a URL that is already present is refused: after an add of `first`
/// (whose id is fresh), an add of `second` with the same base URL returns false
/// and leaves the registry, and its size, as they were.
pub proof fn lemma_second_add_refused(
    s0: Seq<EndpointView>,
    first: EndpointView,
    r1: bool,
    s1: Seq<EndpointView>,
    second: EndpointView,
    r2: bool,
    s2: Seq<EndpointView>,
)
    requires
        add_effect(s0, first, r1, s1),
        add_effect(s1, second, r2, s2),
        first.url.href == second.url.href,
        !has_id(s0, first.id),
    ensures
        !r2,
        s2 == s1,
        s2.len() == s1.len(),
{
    if r1 {
        let last = s1.len() - 1;
        assert(s1[last] == s1.last());
        assert(s1[last].url.href == second.url.href);
    } else {
        let i = choose|i: int| 0 <= i < s0.len() && #[trigger] s0[i].url.href == first.url.href;
        assert(s1[i].url.href == second.url.href);
    }
}

/// Probe ticks neither bring back nor drop an id: after one, the registry holds
/// an endpoint with a given id exactly when it did before; so an id removed by
/// `remove_endpoint` stays absent from every later snapshot.
pub proof fn lemma_tick_keeps_ids(before: Seq<EndpointView>, after: Seq<EndpointView>, id: Seq<char>)
    requires
        after.len() == before.len(),
        forall|i: int| 0 <= i < before.len() ==> #[trigger] probe_step(before[i], after[i]),
    ensures
        has_id(after, id) == has_id(before, id),
{
    if has_id(before, id) {
        let i = choose|i: int| 0 <= i < before.len() && #[trigger] before[i].id == id;
        assert(probe_step(before[i], after[i]));
        assert(after[i].id == id);
    }
    if has_id(after, id) {
        let i = choose|i: int| 0 <= i < after.len() && #[trigger] after[i].id == id;
        assert(probe_step(before[i], after[i]));
        assert(before[i].id == id);
    }
}

/// After `remove_endpoint`, no endpoint with the removed id is left.
pub proof fn lemma_removed_id_absent(s: Seq<EndpointView>, id: Seq<char>)
    ensures
        !has_id(without_id(s, id), id),
    decreases s.len(),
{
    if s.len() > 0 {
        lemma_removed_id_absent(s.drop_last(), id);
        let rest = without_id(s.drop_last(), id);
        if s.last().id != id {
            assert forall|i: int| 0 <= i < rest.push(s.last()).len() implies #[trigger] rest.push(
                s.last(),
            )[i].id != id by {
                if i < rest.len() {
                    assert(rest.push(s.last())[i] == rest[i]);
                }
            }
        }
    }
}

/// Whether no two endpoints of `s` share an id or a base URL.
pub open spec fn distinct_keys(s: Seq<EndpointView>) -> bool {
    forall|i: int, j: int|
        0 <= i < j < s.len() ==> #[trigger] s[i].id != #[trigger] s[j].id && s[i].url.href
            != s[j].url.href
}

/// Adding keeps ids and base URLs distinct, whether it succeeds or not.
pub proof fn lemma_add_keeps_keys_distinct(
    before: Seq<EndpointView>,
    e: EndpointView,
    added: bool,
    after: Seq<EndpointView>,
)
    requires
        distinct_keys(before),
        add_effect(before, e, added, after),
    ensures
        distinct_keys(after),
{
    if added {
        assert forall|i: int, j: int| 0 <= i < j < after.len() implies #[trigger] after[i].id
            != #[trigger] after[j].id && after[i].url.href != after[j].url.href by {
            assert(after[i] == after.drop_last()[i]);
            if j < after.len() - 1 {
                assert(after[j] == after.drop_last()[j]);
            } else {
                assert(after[j] == after.last());
                assert(probe_step(e, after.last()));
                if after[i].id == after[j].id {
                    assert(before[i].id == e.id);
                }
                if after[i].url.href == after[j].url.href {
                    assert(before[i].url.href == e.url.href);
                }
            }
        }
    }
}

proof fn lemma_without_id_members(s: Seq<EndpointView>, id: Seq<char>)
    ensures
        forall|i: int|
            0 <= i < without_id(s, id).len() ==> exists|k: int|
                0 <= k < s.len() && s[k] == #[trigger] without_id(s, id)[i],
    decreases s.len(),
{
    if s.len() > 0 {
        lemma_without_id_members(s.drop_last(), id);
        let rest = without_id(s.drop_last(), id);
        assert forall|i: int| 0 <= i < without_id(s, id).len() implies exists|k: int|
            0 <= k < s.len() && s[k] == #[trigger] without_id(s, id)[i] by {
            if i < rest.len() {
                assert(without_id(s, id)[i] == rest[i]);
                let k = choose|k: int| 0 <= k < s.drop_last().len() && s.drop_last()[k] == rest[i];
                assert(s[k] == s.drop_last()[k]);
            } else {
                assert(without_id(s, id)[i] == s[s.len() - 1]);
            }
        }
    }
}

/// Removing keeps ids and base URLs distinct.
pub proof fn lemma_remove_keeps_keys_distinct(s: Seq<EndpointView>, id: Seq<char>)
    requires
        distinct_keys(s),
    ensures
        distinct_keys(without_id(s, id)),
    decreases s.len(),
{
    if s.len() > 0 {
        let init = s.drop_last();
        assert(distinct_keys(init)) by {
            assert forall|i: int, j: int| 0 <= i < j < init.len() implies #[trigger] init[i].id
                != #[trigger] init[j].id && init[i].url.href != init[j].url.href by {
                assert(init[i] == s[i] && init[j] == s[j]);
            }
        }
        lemma_remove_keeps_keys_distinct(init, id);
        lemma_without_id_members(init, id);
        let rest = without_id(init, id);
        if s.last().id != id {
            let w = rest.push(s.last());
            assert(without_id(s, id) == w);
            assert forall|i: int, j: int| 0 <= i < j < w.len() implies #[trigger] w[i].id
                != #[trigger] w[j].id && w[i].url.href != w[j].url.href by {
                assert(w[i] == rest[i]);
                if j < rest.len() {
                    assert(w[j] == rest[j]);
                } else {
                    let k = choose|k: int| 0 <= k < init.len() && init[k] == #[trigger] rest[i];
                    assert(s[k] == init[k]);
                    assert(w[j] == s[s.len() - 1]);
                }
            }
        } else {
            assert(without_id(s, id) == rest);
        }
    }
}

/// A probe tick keeps ids and base URLs distinct: it changes neither.
pub proof fn lemma_tick_keeps_keys_distinct(before: Seq<EndpointView>, after: Seq<EndpointView>)
    requires
        distinct_keys(before),
        after.len() == before.len(),
        forall|i: int| 0 <= i < before.len() ==> #[trigger] probe_step(before[i], after[i]),
    ensures
        distinct_keys(after),
{
    assert forall|i: int, j: int| 0 <= i < j < after.len() implies #[trigger] after[i].id
        != #[trigger] after[j].id && after[i].url.href != after[j].url.href by {
        assert(probe_step(before[i], after[i]));
        assert(probe_step(before[j], after[j]));
    }
}

/// A status recorded from a report is never `Unknown`: after a tick that reports
/// on an enabled endpoint, that endpoint is `Up` or `Down`.
pub proof fn lemma_reported_status_settled(
    status: StatusView,
    reports: Seq<ProbeReport>,
    id: Seq<char>,
    lo: int,
)
    requires
        records_first_report(status, reports, id, lo),
    ensures
        status is Up || status is Down,
{
    let (j, t) = choose|j: int, t: i64|
        first_report_from(reports, id, lo, j) && status == #[trigger] status_after_probe(
            t,
            reports[j].outcome@,
        );
}

/// What a tick records for an enabled endpoint is decided by the first report on
/// its id: a manifest leaves it `Up` with that manifest, a failure leaves it `Down`.
pub proof fn lemma_first_report_decides(
    status: StatusView,
    reports: Seq<ProbeReport>,
    id: Seq<char>,
    j: int,
)
    requires
        records_first_report(status, reports, id, 0),
        first_report_from(reports, id, 0, j),
    ensures
        reports[j].outcome@ is Manifest ==> status is Up && status->Up_info
            == reports[j].outcome@->Manifest_0,
        !(reports[j].outcome@ is Manifest) ==> status is Down,
{
    let (j2, t) = choose|j2: int, t: i64|
        first_report_from(reports, id, 0, j2) && status == #[trigger] status_after_probe(
            t,
            reports[j2].outcome@,
        );
    if j2 < j {
        assert(reports[j2].id@ != id);
    } else if j < j2 {
        assert(reports[j].id@ != id);
    }
}

/// The outcome of probing the endpoint with id `id`.
#[derive(Debug)]
pub struct ProbeReport {
    pub id: EndpointId,
    pub outcome: ProbeOutcome,
}

impl ProbeReport {
    pub fn new(id: EndpointId, outcome: ProbeOutcome) -> (r: Self)
        ensures
            r.id@ == id@,
            r.outcome@ == outcome@,
    {
        ProbeReport { id, outcome }
    }
}

/// Whether one of `reports`, from position `lo` on, concerns the endpoint with id `id`.
pub open spec fn reported_from(reports: Seq<ProbeReport>, id: Seq<char>, lo: int) -> bool {
    exists|j: int| lo <= j < reports.len() && #[trigger] reports[j].id@ == id
}

/// Whether one of `reports` concerns the endpoint with id `id`.
pub open spec fn reported(reports: Seq<ProbeReport>, id: Seq<char>) -> bool {
    reported_from(reports, id, 0)
}

/// Whether `j` is the first position, from `lo` on, of a report on the endpoint with id `id`.
pub open spec fn first_report_from(reports: Seq<ProbeReport>, id: Seq<char>, lo: int, j: int) -> bool {
    &&& lo <= j < reports.len()
    &&& reports[j].id@ == id
    &&& forall|m: int| lo <= m < j ==> #[trigger] reports[m].id@ != id
}

/// Whether `status` is what the first report on `id`, from position `lo` on,
/// records at some time.
pub open spec fn records_first_report(
    status: StatusView,
    reports: Seq<ProbeReport>,
    id: Seq<char>,
    lo: int,
) -> bool {
    exists|j: int, t: i64|
        first_report_from(reports, id, lo, j) && status == #[trigger] status_after_probe(
            t,
            reports[j].outcome@,
        )
}

/// Whether the endpoint at position `i` is the first in `s` with its id.
pub open spec fn first_with_id(s: Seq<EndpointView>, i: int) -> bool {
    forall|k: int| 0 <= k < i ==> #[trigger] s[k].id != s[i].id
}

/// The registry of backend endpoints.
#[derive(Debug)]
pub struct EndpointWatcher {
    endpoints: Vec<Endpoint>,
}

impl View for EndpointWatcher {
    type V = Seq<EndpointView>;

    closed spec fn view(&self) -> Seq<EndpointView> {
        views(self.endpoints@)
    }
}

impl EndpointWatcher {
    /// A registry seeded with `endpoints`, in order; an endpoint whose base URL
    /// or id is already present is skipped.
    pub fn from_endpoints(endpoints: Vec<Endpoint>) -> (r: Self)
        ensures
            r@ == seeded(views(endpoints@)),
            distinct_keys(r@),
    {
        let mut w = EndpointWatcher { endpoints: Vec::new() };
        let mut i: usize = 0;
        assert(views(endpoints@).subrange(0, 0) =~= Seq::<EndpointView>::empty());
        assert(w@ =~= Seq::<EndpointView>::empty());
        while i < endpoints.len()
            invariant
                i <= endpoints@.len(),
                w@ == seeded(views(endpoints@).subrange(0, i as int)),
                distinct_keys(w@),
            decreases endpoints@.len() - i,
        {
            let e = endpoints[i].clone();
            let ghost ev = e@;
            assert(views(endpoints@)[i as int] == endpoints@[i as int]@);
            assert(views(endpoints@).subrange(0, i + 1).drop_last() =~= views(endpoints@).subrange(
                0,
                i as int,
            ));
            let ghost before = w@;
            if !w.contains_url(e.base_url().href()) && w.position(e.id().as_str()).is_none() {
                proof {
                    lemma_views_push(w.endpoints@, e);
                }
                w.endpoints.push(e);
                proof {
                    assert(w@.drop_last() =~= before);
                    lemma_add_keeps_keys_distinct(before, ev, true, w@);
                }
            }
            i = i + 1;
        }
        assert(views(endpoints@).subrange(0, i as int) =~= views(endpoints@));
        w
    }

    pub fn len(&self) -> (r: usize)
        ensures
            r == self@.len(),
    {
        self.endpoints.len()
    }

    /// A point-in-time copy of every endpoint.
    pub fn endpoints(&self) -> (r: Vec<Endpoint>)
        ensures
            views(r@) == self@,
    {
        let mut out: Vec<Endpoint> = Vec::new();
        let mut i: usize = 0;
        while i < self.endpoints.len()
            invariant
                i <= self.endpoints@.len(),
                views(out@) == self@.subrange(0, i as int),
            decreases self.endpoints@.len() - i,
        {
            let c = self.endpoints[i].clone();
            assert(self@[i as int] == self.endpoints@[i as int]@);
            proof {
                lemma_views_push(out@, c);
            }
            out.push(c);
            assert(views(out@) =~= self@.subrange(0, i + 1));
            i = i + 1;
        }
        assert(self@.subrange(0, i as int) =~= self@);
        out
    }

    /// A copy of each endpoint that may serve `handler`: enabled, up, and
    /// advertising the handler.
    pub fn endpoints_supporting_handler(&self, handler: &str) -> (r: Vec<Endpoint>)
        ensures
            views(r@) == eligible_of(self@, handler@),
    {
        let mut out: Vec<Endpoint> = Vec::new();
        let mut i: usize = 0;
        while i < self.endpoints.len()
            invariant
                i <= self.endpoints@.len(),
                views(out@) == eligible_of(
                    self@.subrange(0, i as int),
                    handler@,
                ),
            decreases self.endpoints@.len() - i,
        {
            let e = &self.endpoints[i];
            assert(self@.subrange(0, i + 1).drop_last() =~= self@.subrange(0, i as int));
            if !e.disabled() && e.supports_handler(handler) {
                let c = e.clone();
                proof {
                    lemma_views_push(out@, c);
                }
                out.push(c);
                assert(views(out@) =~= eligible_of(
                    self@.subrange(0, i + 1),
                    handler@,
                ));
            }
            i = i + 1;
        }
        assert(self@.subrange(0, i as int) =~= self@);
        out
    }

    /// The id and URL of every enabled endpoint: those a probe tick visits.
    pub fn probe_targets(&self) -> (r: Vec<(EndpointId, EndpointUrl)>)
        ensures
            r@.map_values(|t: (EndpointId, EndpointUrl)| (t.0@, t.1@)) == probe_targets_of(self@),
    {
        let mut out: Vec<(EndpointId, EndpointUrl)> = Vec::new();
        let mut i: usize = 0;
        while i < self.endpoints.len()
            invariant
                i <= self.endpoints@.len(),
                out@.map_values(|t: (EndpointId, EndpointUrl)| (t.0@, t.1@)) == probe_targets_of(
                    self@.subrange(0, i as int),
                ),
            decreases self.endpoints@.len() - i,
        {
            let e = &self.endpoints[i];
            assert(self@.subrange(0, i + 1).drop_last() =~= self@.subrange(0, i as int));
            if !e.disabled() {
                out.push((e.id().clone(), e.base_url().clone()));
                assert(out@.map_values(|t: (EndpointId, EndpointUrl)| (t.0@, t.1@))
                    =~= probe_targets_of(self@.subrange(0, i + 1)));
            }
            i = i + 1;
        }
        assert(self@.subrange(0, i as int) =~= self@);
        out
    }

    /// The position of the first endpoint with id `id`.
    pub fn position(&self, id: &str) -> (r: Option<usize>)
        ensures
            r is None <==> !has_id(self@, id@),
            r is Some ==> r->Some_0 < self@.len() && self@[r->Some_0 as int].id == id@
                && forall|k: int| 0 <= k < r->Some_0 ==> #[trigger] self@[k].id != id@,
    {
        let mut i: usize = 0;
        while i < self.endpoints.len()
            invariant
                i <= self.endpoints@.len(),
                forall|k: int| 0 <= k < i ==> #[trigger] self@[k].id != id@,
            decreases self.endpoints@.len() - i,
        {
            if str_eq(self.endpoints[i].id().as_str(), id) {
                return Some(i);
            }
            i = i + 1;
        }
        None
    }

    /// The endpoint with id `id`, if any.
    pub fn endpoint(&self, id: &str) -> (r: Option<&Endpoint>)
        ensures
            r is None <==> !has_id(self@, id@),
            r is Some ==> r->Some_0@.id == id@ && exists|i: int|
                0 <= i < self@.len() && self@[i] == r->Some_0@,
    {
        match self.position(id) {
            Some(i) => Some(&self.endpoints[i]),
            None => None,
        }
    }

    /// Whether an endpoint with base URL `href` is registered.
    pub fn contains_url(&self, href: &str) -> (r: bool)
        ensures
            r == has_url(self@, href@),
    {
        let mut i: usize = 0;
        while i < self.endpoints.len()
            invariant
                i <= self.endpoints@.len(),
                forall|k: int| 0 <= k < i ==> #[trigger] self@[k].url.href != href@,
            decreases self.endpoints@.len() - i,
        {
            if str_eq(self.endpoints[i].base_url().href(), href) {
                assert(self@[i as int].url.href == href@);
                return true;
            }
            i = i + 1;
        }
        false
    }

    /// Adds `endpoint` unless one with the same base URL is registered. The
    /// endpoint's first probe, `outcome`, is recorded before it is inserted, so
    /// that no reader sees it unprobed. Returns whether it was added.
    pub fn add_endpoint(&mut self, endpoint: Endpoint, outcome: ProbeOutcome) -> (r: bool)
        ensures
            add_effect(old(self)@, endpoint@, r, final(self)@),
            r && !endpoint@.disabled ==> exists|t: i64|
                final(self)@.last().status == #[trigger] status_after_probe(t, outcome@),
    {
        if self.contains_url(endpoint.base_url().href()) {
            return false;
        }
        if self.position(endpoint.id().as_str()).is_some() {
            return false;
        }
        let mut endpoint = endpoint;
        endpoint.check_and_update(outcome);
        let ghost probed = endpoint@;
        self.endpoints.push(endpoint);
        assert(self@.drop_last() =~= old(self)@);
        assert(self@.last() == probed);
        true
    }

    /// Removes every endpoint with id `id`; the others keep their order.
    pub fn remove_endpoint(&mut self, id: &str)
        ensures
            final(self)@ == without_id(old(self)@, id@),
            forall|i: int| 0 <= i < final(self)@.len() ==> #[trigger] final(self)@[i].id != id@,
    {
        let mut kept: Vec<Endpoint> = Vec::new();
        let mut i: usize = 0;
        while i < self.endpoints.len()
            invariant
                i <= self.endpoints@.len(),
                views(kept@) == without_id(
                    self@.subrange(0, i as int),
                    id@,
                ),
                forall|k: int| 0 <= k < kept@.len() ==> #[trigger] kept@[k]@.id != id@,
            decreases self.endpoints@.len() - i,
        {
            assert(self@.subrange(0, i + 1).drop_last() =~= self@.subrange(0, i as int));
            if !str_eq(self.endpoints[i].id().as_str(), id) {
                let c = self.endpoints[i].clone();
                assert(self@[i as int] == self.endpoints@[i as int]@);
                proof {
                    lemma_views_push(kept@, c);
                }
                kept.push(c);
                assert(views(kept@) =~= without_id(
                    self@.subrange(0, i + 1),
                    id@,
                ));
            }
            i = i + 1;
        }
        assert(self@.subrange(0, i as int) =~= old(self)@);
        self.endpoints = kept;
        assert forall|i: int| 0 <= i < self@.len() implies #[trigger] self@[i].id != id@ by {
            assert(self@[i] == self.endpoints@[i]@);
        }
    }

    /// Sets the disabled flag of every endpoint with id `id`; returns whether
    /// there was one.
    pub fn set_disabled(&mut self, id: &str, disabled: bool) -> (r: bool)
        ensures
            r == has_id(old(self)@, id@),
            final(self)@.len() == old(self)@.len(),
            forall|i: int|
                0 <= i < old(self)@.len() ==> #[trigger] final(self)@[i] == if old(self)@[i].id
                    == id@ {
                    EndpointView { disabled, ..old(self)@[i] }
                } else {
                    old(self)@[i]
                },
    {
        let mut found = false;
        let mut i: usize = 0;
        while i < self.endpoints.len()
            invariant
                i <= self.endpoints@.len(),
                self@.len() == old(self)@.len(),
                found == exists|k: int| 0 <= k < i && #[trigger] old(self)@[k].id == id@,
                forall|k: int|
                    0 <= k < old(self)@.len() ==> #[trigger] self@[k] == if k < i && old(
                        self,
                    )@[k].id == id@ {
                        EndpointView { disabled, ..old(self)@[k] }
                    } else {
                        old(self)@[k]
                    },
            decreases self.endpoints@.len() - i,
        {
            let ghost prev = self@;
            assert(self@[i as int] == self.endpoints@[i as int]@);
            if str_eq(self.endpoints[i].id().as_str(), id) {
                self.endpoints[i].set_disabled(disabled);
                assert(self@ =~= prev.update(i as int, EndpointView { disabled, ..prev[i as int] }));
                assert(old(self)@[i as int].id == id@);
                found = true;
            }
            i = i + 1;
        }
        found
    }

    /// Records the outcome of one probe tick. Each report is applied, through
    /// `Endpoint::check_and_update`, to the first endpoint with its id; a report
    /// whose endpoint was removed meanwhile is dropped. Where several reports
    /// concern one id, the first of them is the one that stands. An enabled
    /// endpoint that a report concerns ends `Up` or `Down` as that report's
    /// outcome says; disabled endpoints keep their status, and endpoints that no
    /// report concerns are left as they were.
    pub fn check_and_update_endpoints(&mut self, reports: Vec<ProbeReport>)
        ensures
            final(self)@.len() == old(self)@.len(),
            forall|i: int|
                0 <= i < old(self)@.len() ==> #[trigger] probe_step(old(self)@[i], final(self)@[i]),
            forall|i: int|
                0 <= i < old(self)@.len() && !reported(reports@, old(self)@[i].id)
                    ==> #[trigger] final(self)@[i] == old(self)@[i],
            forall|i: int|
                0 <= i < old(self)@.len() && !old(self)@[i].disabled && first_with_id(old(self)@, i)
                    && reported(reports@, old(self)@[i].id) ==> #[trigger] records_first_report(
                    final(self)@[i].status,
                    reports@,
                    old(self)@[i].id,
                    0,
                ),
    {
        let mut reports = reports;
        let ghost all = reports@;
        while reports.len() > 0
            invariant
                self@.len() == old(self)@.len(),
                reports@.len() <= all.len(),
                reports@ == all.subrange(0, reports@.len() as int),
                forall|i: int|
                    0 <= i < old(self)@.len() ==> #[trigger] probe_step(old(self)@[i], self@[i]),
                forall|i: int|
                    0 <= i < old(self)@.len() && !reported_from(
                        all,
                        old(self)@[i].id,
                        reports@.len() as int,
                    ) ==> #[trigger] self@[i] == old(self)@[i],
                forall|i: int|
                    0 <= i < old(self)@.len() && !old(self)@[i].disabled && first_with_id(
                        old(self)@,
                        i,
                    ) && reported_from(all, old(self)@[i].id, reports@.len() as int)
                        ==> #[trigger] records_first_report(
                        self@[i].status,
                        all,
                        old(self)@[i].id,
                        reports@.len() as int,
                    ),
            decreases reports@.len(),
        {
            let ghost n = reports@.len() as int;
            let ghost prev = self@;
            match reports.pop() {
                Some(report) => {
                    assert(report == all[n - 1]);
                    let ghost rid = report.id@;
                    let found = self.position(report.id.as_str());
                    match found {
                        Some(k) => {
                            assert(self@[k as int] == self.endpoints@[k as int]@);
                            self.endpoints[k].check_and_update(report.outcome);
                            assert(self@ =~= prev.update(k as int, self.endpoints@[k as int]@));
                            assert(probe_step(prev[k as int], self@[k as int]));
                            assert forall|i: int| 0 <= i < old(self)@.len() implies #[trigger] probe_step(
                                old(self)@[i],
                                self@[i],
                            ) by {
                                assert(probe_step(old(self)@[i], prev[i]));
                            }
                            assert(probe_step(old(self)@[k as int], prev[k as int]));
                            proof {
                                if !old(self)@[k as int].disabled {
                                    let t = choose|t: i64|
                                        self@[k as int].status == #[trigger] status_after_probe(
                                            t,
                                            all[n - 1].outcome@,
                                        );
                                    assert(first_report_from(all, rid, n - 1, n - 1));
                                    assert(records_first_report(
                                        self@[k as int].status,
                                        all,
                                        rid,
                                        n - 1,
                                    ));
                                }
                            }
                        },
                        None => {},
                    }
                    assert forall|i: int|
                        0 <= i < old(self)@.len() && old(self)@[i].id != rid implies #[trigger] self@[i]
                        == prev[i] by {
                        assert(probe_step(old(self)@[i], prev[i]));
                    }
                    assert forall|i: int|
                        0 <= i < old(self)@.len() && !reported_from(all, old(self)@[i].id, n - 1)
                            implies #[trigger] self@[i] == old(self)@[i] by {
                        assert(all[n - 1].id@ == rid);
                        if reported_from(all, old(self)@[i].id, n) {
                            let j = choose|j: int|
                                n <= j < all.len() && #[trigger] all[j].id@ == old(self)@[i].id;
                            assert(n - 1 <= j);
                        }
                        assert(probe_step(old(self)@[i], prev[i]));
                    }
                    assert forall|i: int|
                        0 <= i < old(self)@.len() && !old(self)@[i].disabled && first_with_id(
                            old(self)@,
                            i,
                        ) && reported_from(all, old(self)@[i].id, n - 1)
                            implies #[trigger] records_first_report(
                            self@[i].status,
                            all,
                            old(self)@[i].id,
                            n - 1,
                        ) by {
                        let id = old(self)@[i].id;
                        assert(probe_step(old(self)@[i], prev[i]));
                        if id == rid {
                            match found {
                                Some(k) => {
                                    assert(probe_step(old(self)@[k as int], prev[k as int]));
                                    if (k as int) < i {
                                        assert(old(self)@[k as int].id != id);
                                    } else if i < k {
                                        assert(probe_step(old(self)@[i], prev[i]));
                                        assert(prev[i].id != rid);
                                    }
                                },
                                None => {
                                    assert(prev[i].id == rid);
                                },
                            }
                        } else {
                            let j0 = choose|j: int|
                                n - 1 <= j < all.len() && #[trigger] all[j].id@ == id;
                            assert(j0 != n - 1);
                            assert(reported_from(all, id, n));
                            assert(records_first_report(prev[i].status, all, id, n));
                            let (j, t) = choose|j: int, t: i64|
                                first_report_from(all, id, n, j) && prev[i].status
                                    == #[trigger] status_after_probe(t, all[j].outcome@);
                            assert(first_report_from(all, id, n - 1, j));
                            assert(self@[i] == prev[i]);
                            assert(records_first_report(self@[i].status, all, id, n - 1));
                        }
                    }
                },
                None => {},
            }
        }
    }
}

} // verus!
