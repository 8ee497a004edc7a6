//! Log filter set-up: per-component default levels, rendered as filter directives.
use vstd::prelude::*;

verus! {

/// A log level.
#[derive(Debug, Clone, Copy, PartialEq, Eq, Structural)]
pub enum Level {
    Trace,
    Debug,
    Info,
    Warn,
    Error,
}

pub open spec fn level_name(l: Level) -> Seq<char> {
    match l {
        Level::Trace => "trace"@,
        Level::Debug => "debug"@,
        Level::Info => "info"@,
        Level::Warn => "warn"@,
        Level::Error => "error"@,
    }
}

impl Level {
    pub fn as_str(&self) -> (r: &'static str)
        ensures
            r@ == level_name(*self),
    {
        match self {
            Level::Trace => "trace",
            Level::Debug => "debug",
            Level::Info => "info",
            Level::Warn => "warn",
            Level::Error => "error",
        }
    }
}

/// The components whose level is set by default, with that level.
pub fn component_levels() -> (r: Vec<(&'static str, Level)>)
    ensures
        r@.len() == 2,
        r@[0].0@ == "ocr_api"@ && r@[0].1 == Level::Info,
        r@[1].0@ == "request"@ && r@[1].1 == Level::Info,
{
    let mut v: Vec<(&'static str, Level)> = Vec::new();
    v.push(("ocr_api", Level::Info));
    v.push(("request", Level::Info));
    v
}

/// One filter directive: `name=level`, or the bare level for an empty name.
pub open spec fn directive_of(name: Seq<char>, level: Level) -> Seq<char> {
    if name.len() == 0 {
        level_name(level)
    } else {
        name + "="@ + level_name(level)
    }
}

/// The directives for `levels`, each preceded by a comma.
pub open spec fn directives_of(levels: Seq<(Seq<char>, Level)>) -> Seq<char>
    decreases levels.len(),
{
    if levels.len() == 0 {
        Seq::empty()
    } else {
        directives_of(levels.drop_last()) + ","@ + directive_of(
            levels.last().0,
            levels.last().1,
        )
    }
}

pub open spec fn level_views(levels: Seq<(&str, Level)>) -> Seq<(Seq<char>, Level)> {
    levels.map_values(|p: (&str, Level)| (p.0@, p.1))
}

/// The filter directives for `levels`.
pub fn default_directives(levels: &Vec<(&str, Level)>) -> (r: String)
    ensures
        r@ == directives_of(level_views(levels@)),
{
    let mut out = String::new();
    let mut i: usize = 0;
    while i < levels.len()
        invariant
            i <= levels@.len(),
            out@ == directives_of(level_views(levels@).subrange(0, i as int)),
        decreases levels@.len() - i,
    {
        let (name, level) = levels[i];
        out.append(",");
        if name.unicode_len() == 0 {
            out.append(level.as_str());
        } else {
            out.append(name);
            out.append("=");
            out.append(level.as_str());
        }
        assert(level_views(levels@).subrange(0, i + 1).drop_last() =~= level_views(
            levels@,
        ).subrange(0, i as int));
        i = i + 1;
    }
    assert(level_views(levels@).subrange(0, i as int) =~= level_views(levels@));
    out
}

/// The full filter for `levels` followed by `overrides`: the directives for
/// `levels`, then, where `overrides` is not empty, a comma and `overrides`
/// (comma-separated directives that take precedence).
pub open spec fn filter_of(levels: Seq<(Seq<char>, Level)>, overrides: Seq<char>) -> Seq<char> {
    if overrides.len() == 0 {
        directives_of(levels)
    } else {
        directives_of(levels) + ","@ + overrides
    }
}

/// The filter string for `levels` followed by `overrides`.
pub fn filter_directives(levels: &Vec<(&str, Level)>, overrides: &str) -> (r: String)
    ensures
        r@ == filter_of(level_views(levels@), overrides@),
{
    let mut directives = default_directives(levels);
    if overrides.unicode_len() > 0 {
        directives.append(",");
        directives.append(overrides);
    }
    directives
}

/// Every component of `levels` at `level`.
pub fn levels_at<'a>(levels: &Vec<(&'a str, Level)>, level: Level) -> (r: Vec<(&'a str, Level)>)
    ensures
        r@.len() == levels@.len(),
        forall|i: int| 0 <= i < r@.len() ==> #[trigger] r@[i] == (levels@[i].0, level),
{
    let mut out: Vec<(&'a str, Level)> = Vec::new();
    let mut i: usize = 0;
    while i < levels.len()
        invariant
            i <= levels@.len(),
            out@.len() == i,
            forall|k: int| 0 <= k < i ==> #[trigger] out@[k] == (levels@[k].0, level),
        decreases levels@.len() - i,
    {
        out.push((levels[i].0, level));
        i = i + 1;
    }
    out
}

/// Relies on tracing_subscriber: `EnvFilter::builder().with_default_directive`
/// (`warn`) and `parse_lossy`, which splits `directives` at commas and skips
/// empty and invalid ones (reporting the invalid on stderr), then
/// `registry().with(fmt::layer()).with(filter).try_init()`, which installs the
/// global subscriber. Nothing is promised of the result.
#[verifier::external_body]
fn install_subscriber(directives: &str) -> (r: bool) {
    let filter = tracing_subscriber::EnvFilter::builder().with_default_directive(
        tracing_subscriber::filter::LevelFilter::WARN.into(),
    ).parse_lossy(directives);
    let layered = tracing_subscriber::layer::SubscriberExt::with(
        tracing_subscriber::registry(),
        tracing_subscriber::fmt::layer(),
    );
    let subscriber = tracing_subscriber::layer::SubscriberExt::with(layered, filter);
    tracing_subscriber::util::SubscriberInitExt::try_init(subscriber).is_ok()
}

/// Installs the global log subscriber with the filter
/// `filter_directives(levels, overrides)` and default level `warn`. Returns
/// whether it was installed. `overrides` is the value of the log-level
/// environment variable (empty when unset), read by the caller.
pub fn init_with(levels: &Vec<(&str, Level)>, overrides: &str) -> (r: bool) {
    let directives = filter_directives(levels, overrides);
    install_subscriber(directives.as_str())
}

/// Installs the global log subscriber with the default component levels,
/// followed by `overrides`.
pub fn init(overrides: &str) -> (r: bool) {
    init_with(&component_levels(), overrides)
}

/// Installs the global log subscriber with every component at `level`,
/// followed by `overrides`.
pub fn init_with_app_level(level: Level, overrides: &str) -> (r: bool) {
    init_with(&levels_at(&component_levels(), level), overrides)
}

} // verus!
