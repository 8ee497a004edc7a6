//! One backend endpoint: its identity, base URL, capability manifest and health status.
use vstd::prelude::*;

use crate::clock::now_millis;
use crate::radix_fmt::{radix_chars, FormatRadix};
use crate::text::{replace, replace_all, str_eq, strip_leading, strip_leading_slash};

verus! {

/// The placeholder that a manifest's handler template holds for the handler name.
pub const HANDLER_PLACEHOLDER: &'static str = "{handler_name}";

pub const CONNECT_ERROR_PREFIX: &'static str = "Couldn't connect to endpoint: ";

pub const FETCH_ERROR_PREFIX: &'static str = "Couldn't get endpoint base info: ";

pub const PARSE_ERROR_PREFIX: &'static str = "Couldn't parse endpoint base info: ";

/// Process-unique identity of an endpoint.
#[derive(Debug, PartialEq, Eq, Hash)]
pub struct EndpointId(pub String);

impl View for EndpointId {
    type V = Seq<char>;

    open spec fn view(&self) -> Seq<char> {
        self.0@
    }
}

impl EndpointId {
    pub fn new(id: String) -> (r: Self)
        ensures
            r@ == id@,
    {
        EndpointId(id)
    }

    pub fn as_str(&self) -> (r: &str)
        ensures
            r@ == self@,
    {
        self.0.as_str()
    }

    /// Whether the two identities are the same.
    pub fn same(&self, other: &EndpointId) -> (r: bool)
        ensures
            r == (self@ == other@),
    {
        str_eq(self.0.as_str(), other.0.as_str())
    }
}

impl Clone for EndpointId {
    fn clone(&self) -> (r: Self)
        ensures
            r@ == self@,
    {
        EndpointId(self.0.clone())
    }
}

/// The base URL of an endpoint: an absolute `http` or `https` URL with a host,
/// whose path has been set to `/`, held as the parts the gateway reads. It is
/// made only by `EndpointUrl::parse`, so two endpoints name the same backend
/// exactly when their serialised URLs are equal.
#[derive(Debug)]
pub struct EndpointUrl {
    href: String,
    scheme: String,
    host: String,
    port: Option<u16>,
}

pub struct UrlView {
    /// The serialised URL.
    pub href: Seq<char>,
    pub scheme: Seq<char>,
    pub host: Seq<char>,
    /// The explicit port, if the URL names one.
    pub port: Option<u16>,
}

impl View for EndpointUrl {
    type V = UrlView;

    closed spec fn view(&self) -> UrlView {
        UrlView { href: self.href@, scheme: self.scheme@, host: self.host@, port: self.port }
    }
}

impl Clone for EndpointUrl {
    fn clone(&self) -> (r: Self)
        ensures
            r@ == self@,
    {
        EndpointUrl {
            href: self.href.clone(),
            scheme: self.scheme.clone(),
            host: self.host.clone(),
            port: self.port,
        }
    }
}

/// A well-formed base URL: scheme `http` or `https`, and a host.
pub open spec fn url_wf(u: UrlView) -> bool {
    (u.scheme == "http"@ || u.scheme == "https"@) && u.host.len() > 0
}

pub const URL_NOT_ABSOLUTE: &'static str = "URL must be absolute";

pub const URL_PARSE_ERROR_PREFIX: &'static str = "URL must be absolute: ";

pub const URL_SCHEME_UNSUPPORTED: &'static str = "URL scheme must be http or https";

pub const URL_HOST_MISSING: &'static str = "URL must have a host";

#[verifier::external_type_specification]
#[verifier::external_body]
pub struct ExUrl(::url::Url);

/// Relies on url::Url::parse: the URL that `s` denotes, or the parse error's text.
#[verifier::external_body]
fn parse_url(s: &str) -> (r: Result<url::Url, String>) {
    url::Url::parse(s).map_err(|e| e.to_string())
}

pub assume_specification[ ::url::Url::cannot_be_a_base ](u: &::url::Url) -> bool;

pub assume_specification[ ::url::Url::set_path ](u: &mut ::url::Url, path: &str);

pub assume_specification<'a>[ ::url::Url::as_str ](u: &'a ::url::Url) -> &'a str;

pub assume_specification<'a>[ ::url::Url::scheme ](u: &'a ::url::Url) -> &'a str;

pub assume_specification<'a>[ ::url::Url::host_str ](u: &'a ::url::Url) -> Option<&'a str>;

pub assume_specification[ ::url::Url::port ](u: &::url::Url) -> Option<u16>;

/// The port to connect to: the explicit one, else 80 for `http` and 443 for
/// `https`; none for any other scheme.
pub open spec fn port_or_default_of(u: UrlView) -> Option<u16> {
    match u.port {
        Some(p) => Some(p),
        None => if u.scheme == "http"@ {
            Some(80u16)
        } else if u.scheme == "https"@ {
            Some(443u16)
        } else {
            None
        },
    }
}

/// The `host:port` address a connectivity probe connects to.
pub open spec fn probe_address_of(u: UrlView) -> Option<Seq<char>> {
    match port_or_default_of(u) {
        Some(p) => Some(u.host + ":"@ + radix_chars(p as nat, 10, false)),
        None => None,
    }
}

impl EndpointUrl {
    /// Parses an absolute URL and sets its path to `/`. Refused: text that does
    /// not parse, a URL that cannot be a base, a scheme other than `http` or
    /// `https`, and a URL without a host.
    pub fn parse(s: &str) -> (r: Result<EndpointUrl, String>)
        ensures
            r is Ok ==> url_wf(r->Ok_0@),
            r is Err ==> (r->Err_0@ == URL_NOT_ABSOLUTE@ || r->Err_0@ == URL_SCHEME_UNSUPPORTED@
                || r->Err_0@ == URL_HOST_MISSING@ || URL_PARSE_ERROR_PREFIX@.is_prefix_of(
                r->Err_0@,
            )),
    {
        let mut u = match parse_url(s) {
            Ok(u) => u,
            Err(e) => {
                let mut m = String::from_str(URL_PARSE_ERROR_PREFIX);
                m.append(e.as_str());
                assert(URL_PARSE_ERROR_PREFIX@.is_prefix_of(m@)) by {
                    assert(m@.subrange(0, URL_PARSE_ERROR_PREFIX@.len() as int)
                        =~= URL_PARSE_ERROR_PREFIX@);
                }
                return Err(m);
            },
        };
        if u.cannot_be_a_base() {
            return Err(String::from_str(URL_NOT_ABSOLUTE));
        }
        u.set_path("/");
        let scheme = u.scheme();
        if !str_eq(scheme, "http") && !str_eq(scheme, "https") {
            return Err(String::from_str(URL_SCHEME_UNSUPPORTED));
        }
        let host = match u.host_str() {
            Some(h) => h,
            None => {
                return Err(String::from_str(URL_HOST_MISSING));
            },
        };
        if host.unicode_len() == 0 {
            return Err(String::from_str(URL_HOST_MISSING));
        }
        Ok(
            EndpointUrl {
                href: String::from_str(u.as_str()),
                scheme: String::from_str(scheme),
                host: String::from_str(host),
                port: u.port(),
            },
        )
    }

    /// The serialised URL.
    pub fn href(&self) -> (r: &str)
        ensures
            r@ == self@.href,
    {
        self.href.as_str()
    }

    pub fn scheme(&self) -> (r: &str)
        ensures
            r@ == self@.scheme,
    {
        self.scheme.as_str()
    }

    pub fn host(&self) -> (r: &str)
        ensures
            r@ == self@.host,
    {
        self.host.as_str()
    }

    /// The explicit port, if the URL names one.
    pub fn port(&self) -> (r: Option<u16>)
        ensures
            r == self@.port,
    {
        self.port
    }

    pub fn port_or_default(&self) -> (r: Option<u16>)
        ensures
            r == port_or_default_of(self@),
    {
        match self.port {
            Some(p) => Some(p),
            None => {
                if str_eq(self.scheme.as_str(), "http") {
                    Some(80)
                } else if str_eq(self.scheme.as_str(), "https") {
                    Some(443)
                } else {
                    None
                }
            },
        }
    }

    pub fn probe_address(&self) -> (r: Option<String>)
        ensures
            url_wf(self@) ==> r is Some,
            r is Some <==> probe_address_of(self@) is Some,
            r is Some ==> Some(r->Some_0@) == probe_address_of(self@),
    {
        match self.port_or_default() {
            Some(p) => {
                let mut a = String::from_str(self.host.as_str());
                a.append(":");
                let digits = (p as u32).format_to_base(10);
                a.append(digits.as_str());
                Some(a)
            },
            None => None,
        }
    }
}

/// The capability manifest a backend serves at its base URL.
#[derive(Debug)]
pub struct EndpointInfo {
    pub available_handlers: Vec<String>,
    /// Path template holding the handler-name placeholder.
    pub handler_template: String,
}

pub struct InfoView {
    pub handlers: Seq<Seq<char>>,
    pub template: Seq<char>,
}

impl View for EndpointInfo {
    type V = InfoView;

    open spec fn view(&self) -> InfoView {
        InfoView {
            handlers: self.available_handlers@.map_values(|s: String| s@),
            template: self.handler_template@,
        }
    }
}

impl Clone for EndpointInfo {
    fn clone(&self) -> (r: Self)
        ensures
            r@ == self@,
    {
        let handlers = self.available_handlers.clone();
        assert(handlers@.map_values(|s: String| s@) =~= self.available_handlers@.map_values(
            |s: String| s@,
        ));
        EndpointInfo { available_handlers: handlers, handler_template: self.handler_template.clone() }
    }
}

/// The path for `handler`: the template with the placeholder replaced.
pub open spec fn handler_path_of(info: InfoView, handler: Seq<char>) -> Seq<char> {
    replace_all(info.template, HANDLER_PLACEHOLDER@, handler)
}

impl EndpointInfo {
    pub fn new(available_handlers: Vec<String>, handler_template: String) -> (r: Self)
        ensures
            r.available_handlers@ == available_handlers@,
            r.handler_template == handler_template,
    {
        EndpointInfo { available_handlers, handler_template }
    }

    pub fn supports_handler(&self, handler: &str) -> (r: bool)
        ensures
            r == self@.handlers.contains(handler@),
    {
        let mut i: usize = 0;
        while i < self.available_handlers.len()
            invariant
                i <= self.available_handlers@.len(),
                forall|k: int| 0 <= k < i ==> self@.handlers[k] != handler@,
            decreases self.available_handlers@.len() - i,
        {
            if str_eq(self.available_handlers[i].as_str(), handler) {
                assert(self@.handlers[i as int] == handler@);
                return true;
            }
            i = i + 1;
        }
        false
    }

    pub fn handler_path(&self, handler: &str) -> (r: String)
        ensures
            r@ == handler_path_of(self@, handler@),
    {
        replace(self.handler_template.as_str(), HANDLER_PLACEHOLDER, handler)
    }
}

/// Health of an endpoint, as last recorded. `checked_at` is in milliseconds since
/// the Unix epoch.
#[derive(Debug)]
pub enum EndpointStatus {
    Up { checked_at: i64, info: EndpointInfo },
    Down { checked_at: i64, error: String },
    Unknown,
}

pub enum StatusView {
    Up { checked_at: i64, info: InfoView },
    Down { checked_at: i64, error: Seq<char> },
    Unknown,
}

impl View for EndpointStatus {
    type V = StatusView;

    open spec fn view(&self) -> StatusView {
        match self {
            EndpointStatus::Up { checked_at, info } => StatusView::Up {
                checked_at: *checked_at,
                info: info@,
            },
            EndpointStatus::Down { checked_at, error } => StatusView::Down {
                checked_at: *checked_at,
                error: error@,
            },
            EndpointStatus::Unknown => StatusView::Unknown,
        }
    }
}

impl Clone for EndpointStatus {
    fn clone(&self) -> (r: Self)
        ensures
            r@ == self@,
    {
        match self {
            EndpointStatus::Up { checked_at, info } => EndpointStatus::Up {
                checked_at: *checked_at,
                info: info.clone(),
            },
            EndpointStatus::Down { checked_at, error } => EndpointStatus::Down {
                checked_at: *checked_at,
                error: error.clone(),
            },
            EndpointStatus::Unknown => EndpointStatus::Unknown,
        }
    }
}

impl EndpointStatus {
    pub fn info(&self) -> (r: Option<&EndpointInfo>)
        ensures
            self@ is Up <==> r is Some,
            self@ is Up ==> r->Some_0@ == self@->Up_info,
    {
        match self {
            EndpointStatus::Up { info, .. } => Some(info),
            _ => None,
        }
    }

    /// `Up`, checked at `checked_at`.
    pub fn up_at(checked_at: i64, info: EndpointInfo) -> (r: Self)
        ensures
            r@ == (StatusView::Up { checked_at, info: info@ }),
    {
        EndpointStatus::Up { checked_at, info }
    }

    /// `Down`, checked at `checked_at`.
    pub fn down_at(checked_at: i64, error: String) -> (r: Self)
        ensures
            r@ == (StatusView::Down { checked_at, error: error@ }),
    {
        EndpointStatus::Down { checked_at, error }
    }

    /// `Up`, checked now.
    pub fn up(info: EndpointInfo) -> (r: Self)
        ensures
            r@ is Up,
            r@->Up_info == info@,
    {
        EndpointStatus::up_at(now_millis(), info)
    }

    /// `Down`, checked now.
    pub fn down(error: String) -> (r: Self)
        ensures
            r@ is Down,
            r@->Down_error == error@,
    {
        EndpointStatus::down_at(now_millis(), error)
    }

    pub fn unknown() -> (r: Self)
        ensures
            r@ is Unknown,
    {
        EndpointStatus::Unknown
    }

    pub fn is_up(&self) -> (r: bool)
        ensures
            r == self@ is Up,
    {
        matches!(self, EndpointStatus::Up { .. })
    }

    pub fn is_down(&self) -> (r: bool)
        ensures
            r == self@ is Down,
    {
        matches!(self, EndpointStatus::Down { .. })
    }

    pub fn is_unknown(&self) -> (r: bool)
        ensures
            r == self@ is Unknown,
    {
        matches!(self, EndpointStatus::Unknown)
    }
}

/// What one probe of an endpoint found: the TCP connection failed, the manifest
/// request failed, the manifest did not parse, or the manifest it served.
/// Each failure carries the underlying error's text.
#[derive(Debug)]
pub enum ProbeOutcome {
    Unreachable(String),
    FetchFailed(String),
    Unparsable(String),
    Manifest(EndpointInfo),
}

pub enum OutcomeView {
    Unreachable(Seq<char>),
    FetchFailed(Seq<char>),
    Unparsable(Seq<char>),
    Manifest(InfoView),
}

impl View for ProbeOutcome {
    type V = OutcomeView;

    open spec fn view(&self) -> OutcomeView {
        match self {
            ProbeOutcome::Unreachable(e) => OutcomeView::Unreachable(e@),
            ProbeOutcome::FetchFailed(e) => OutcomeView::FetchFailed(e@),
            ProbeOutcome::Unparsable(e) => OutcomeView::Unparsable(e@),
            ProbeOutcome::Manifest(info) => OutcomeView::Manifest(info@),
        }
    }
}

/// The status that a probe with outcome `o`, finished at `now`, records: `Up` only
/// with the manifest it fetched, `Down` with a message naming the failed step.
pub open spec fn status_after_probe(now: i64, o: OutcomeView) -> StatusView {
    match o {
        OutcomeView::Unreachable(e) => StatusView::Down {
            checked_at: now,
            error: CONNECT_ERROR_PREFIX@ + e,
        },
        OutcomeView::FetchFailed(e) => StatusView::Down {
            checked_at: now,
            error: FETCH_ERROR_PREFIX@ + e,
        },
        OutcomeView::Unparsable(e) => StatusView::Down {
            checked_at: now,
            error: PARSE_ERROR_PREFIX@ + e,
        },
        OutcomeView::Manifest(info) => StatusView::Up { checked_at: now, info },
    }
}

/// A probe records `Up` only with the manifest it fetched: a backend whose
/// connection, manifest request or manifest parse failed is recorded `Down`.
pub proof fn lemma_up_only_with_manifest(now: i64, o: OutcomeView)
    ensures
        status_after_probe(now, o) is Up <==> o is Manifest,
        o is Manifest ==> status_after_probe(now, o)->Up_info == o->Manifest_0,
        !(o is Manifest) ==> status_after_probe(now, o) is Down,
{
}

/// `prefix` followed by `detail`.
fn prefixed(prefix: &str, detail: &str) -> (r: String)
    ensures
        r@ == prefix@ + detail@,
{
    let mut m = String::from_str(prefix);
    m.append(detail);
    m
}

/// One backend: stable id, base URL, last recorded status, and whether an
/// operator has disabled it.
#[derive(Debug)]
pub struct Endpoint {
    pub id: EndpointId,
    pub url: EndpointUrl,
    pub status: EndpointStatus,
    disabled: bool,
}

pub struct EndpointView {
    pub id: Seq<char>,
    pub url: UrlView,
    pub status: StatusView,
    pub disabled: bool,
}

impl View for Endpoint {
    type V = EndpointView;

    closed spec fn view(&self) -> EndpointView {
        EndpointView {
            id: self.id@,
            url: self.url@,
            status: self.status@,
            disabled: self.disabled,
        }
    }
}

impl Clone for Endpoint {
    fn clone(&self) -> (r: Self)
        ensures
            r@ == self@,
    {
        Endpoint {
            id: self.id.clone(),
            url: self.url.clone(),
            status: self.status.clone(),
            disabled: self.disabled,
        }
    }
}

/// Whether `handler` may be dispatched to an endpoint in state `e`: it is up and
/// its manifest lists the handler.
pub open spec fn supports_handler_of(e: EndpointView, handler: Seq<char>) -> bool {
    e.status is Up && e.status->Up_info.handlers.contains(handler)
}

/// The URL a request for `handler` is forwarded to: the base URL joined with the
/// manifest's path for the handler, without its leading `/`. None unless up.
pub open spec fn handler_url_of(e: EndpointView, handler: Seq<char>) -> Option<Seq<char>> {
    match e.status {
        StatusView::Up { info, .. } => url_joined(
            e.url.href,
            strip_leading(handler_path_of(info, handler), '/'),
        ),
        _ => None,
    }
}

/// How one probe changes an endpoint: identity, URL and the disabled flag stay;
/// a disabled endpoint keeps its status.
pub open spec fn probe_step(before: EndpointView, after: EndpointView) -> bool {
    &&& after.id == before.id
    &&& after.url == before.url
    &&& after.disabled == before.disabled
    &&& before.disabled ==> after.status == before.status
}

impl Endpoint {
    /// A new, enabled endpoint whose status is `Unknown`.
    pub fn new(id: EndpointId, url: EndpointUrl) -> (r: Self)
        ensures
            r@ == (EndpointView { id: id@, url: url@, status: StatusView::Unknown, disabled: false }),
    {
        Endpoint { id, url, status: EndpointStatus::Unknown, disabled: false }
    }

    pub fn id(&self) -> (r: &EndpointId)
        ensures
            r@ == self@.id,
    {
        &self.id
    }

    pub fn base_url(&self) -> (r: &EndpointUrl)
        ensures
            r@ == self@.url,
    {
        &self.url
    }

    pub fn status(&self) -> (r: &EndpointStatus)
        ensures
            r@ == self@.status,
    {
        &self.status
    }

    pub fn supports_handler(&self, handler: &str) -> (r: bool)
        ensures
            r == supports_handler_of(self@, handler@),
    {
        match self.status.info() {
            Some(info) => info.supports_handler(handler),
            None => false,
        }
    }

    pub fn handler_url(&self, handler: &str) -> (r: Option<String>)
        ensures
            r is Some <==> handler_url_of(self@, handler@) is Some,
            r is Some ==> Some(r->Some_0@) == handler_url_of(self@, handler@),
    {
        match self.status.info() {
            Some(info) => {
                let path = info.handler_path(handler);
                join_url(self.url.href.as_str(), strip_leading_slash(path.as_str()))
            },
            None => None,
        }
    }

    pub fn disabled(&self) -> (r: bool)
        ensures
            r == self@.disabled,
    {
        self.disabled
    }

    pub fn set_disabled(&mut self, disabled: bool)
        ensures
            final(self)@ == (EndpointView { disabled, ..old(self)@ }),
    {
        self.disabled = disabled;
    }

    /// Records the outcome of a probe finished at `now`; a disabled endpoint is
    /// left as it is.
    pub fn check_and_update_at(&mut self, now: i64, outcome: ProbeOutcome)
        ensures
            probe_step(old(self)@, final(self)@),
            !old(self)@.disabled ==> final(self)@.status == status_after_probe(now, outcome@),
    {
        if self.disabled {
            return;
        }
        self.status = match outcome {
            ProbeOutcome::Unreachable(e) => EndpointStatus::down_at(
                now,
                prefixed(CONNECT_ERROR_PREFIX, e.as_str()),
            ),
            ProbeOutcome::FetchFailed(e) => EndpointStatus::down_at(
                now,
                prefixed(FETCH_ERROR_PREFIX, e.as_str()),
            ),
            ProbeOutcome::Unparsable(e) => EndpointStatus::down_at(
                now,
                prefixed(PARSE_ERROR_PREFIX, e.as_str()),
            ),
            ProbeOutcome::Manifest(info) => EndpointStatus::up_at(now, info),
        };
    }

    /// Records the outcome of a probe that finished just now.
    pub fn check_and_update(&mut self, outcome: ProbeOutcome)
        ensures
            probe_step(old(self)@, final(self)@),
            !old(self)@.disabled ==> exists|t: i64|
                final(self)@.status == #[trigger] status_after_probe(t, outcome@),
    {
        let now = now_millis();
        self.check_and_update_at(now, outcome);
    }
}

/// Whether each state of `run` follows from the one before by one probe, as
/// `check_and_update` records it.
pub open spec fn probe_run_ok(run: Seq<EndpointView>) -> bool {
    forall|i: int| 0 <= i < run.len() - 1 ==> #[trigger] probe_step(run[i], run[i + 1])
}

/// A disabled endpoint's status is frozen: however many probes follow, each
/// recorded as `check_and_update` records it, the status stays what it was.
pub proof fn lemma_disabled_status_frozen(run: Seq<EndpointView>)
    requires
        run.len() > 0,
        run[0].disabled,
        probe_run_ok(run),
    ensures
        forall|i: int| 0 <= i < run.len() ==> (#[trigger] run[i]).status == run[0].status
            && run[i].disabled,
    decreases run.len(),
{
    if run.len() > 1 {
        let shorter = run.subrange(0, run.len() - 1);
        assert forall|i: int| 0 <= i < shorter.len() - 1 implies #[trigger] probe_step(
            shorter[i],
            shorter[i + 1],
        ) by {
            assert(probe_step(run[i], run[i + 1]));
        }
        lemma_disabled_status_frozen(shorter);
        let last = run.len() - 1;
        let j = last - 1;
        assert(shorter[j] == run[j]);
        assert(probe_step(run[j], run[j + 1]));
        assert forall|i: int| 0 <= i < run.len() implies (#[trigger] run[i]).status
            == run[0].status && run[i].disabled by {
            if i < last {
                assert(shorter[i] == run[i]);
            }
        }
    }
}

/// The URL that `reference` resolves to against the absolute URL `base`.
pub uninterp spec fn url_joined(base: Seq<char>, reference: Seq<char>) -> Option<Seq<char>>;

/// Relies on url::Url::parse, to read the base, and url::Url::join: the serialised
/// URL that `reference` resolves to against `base`, or none where either fails.
#[verifier::external_body]
fn join_url(base: &str, reference: &str) -> (r: Option<String>)
    ensures
        r is Some <==> url_joined(base@, reference@) is Some,
        r is Some ==> Some(r->Some_0@) == url_joined(base@, reference@),
{
    match url::Url::parse(base).and_then(|b| b.join(reference)) {
        Ok(u) => Some(u.into()),
        Err(_) => None,
    }
}

} // verus!
