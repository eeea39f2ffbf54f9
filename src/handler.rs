//! The decisions made for each request: whether it is logged, and the
//! response that it gets.
use vstd::prelude::*;
use vstd::string::*;
use crate::config::{opt_views, pair_views, Config};
use crate::metrics::{bump, decimal, method_counts, status_counts, total_of, wrap_inc, Metrics};
use crate::text::{is_prefix, same_text, starts_with, views};

verus! {

/// The compact JSON text of an object whose members are these string pairs.
pub uninterp spec fn json_object_text(fields: Seq<(Seq<char>, Seq<char>)>) -> Seq<char>;

/// Relies on `serde_json::to_string` of a `serde_json::Value::Object` built
/// from the pairs: its text depends on the pairs alone.
#[verifier::external_body]
fn json_object(fields: &Vec<(String, String)>) -> (r: String)
    ensures
        r@ == json_object_text(pair_views(fields@)),
{
    let members: serde_json::Map<String, serde_json::Value> = fields
        .iter()
        .map(|(k, v)| (k.clone(), serde_json::Value::String(v.clone())))
        .collect();
    serde_json::to_string(&serde_json::Value::Object(members)).unwrap()
}

/// Some route of `routes` is a prefix of `path`.
pub open spec fn route_matches(routes: Seq<Seq<char>>, path: Seq<char>) -> bool {
    exists|i: int| 0 <= i < routes.len() && is_prefix(#[trigger] routes[i], path)
}

/// `method` is one of `methods`.
pub open spec fn method_listed(methods: Seq<Seq<char>>, method: Seq<char>) -> bool {
    exists|i: int| 0 <= i < methods.len() && #[trigger] methods[i] == method
}

/// Whether a request is logged: each filter that is set must accept it.
pub open spec fn log_decision(
    routes: Option<Seq<Seq<char>>>,
    methods: Option<Seq<Seq<char>>>,
    path: Seq<char>,
    method: Seq<char>,
) -> bool {
    match (routes, methods) {
        (Some(r), Some(m)) => route_matches(r, path) && method_listed(m, method),
        (Some(r), None) => route_matches(r, path),
        (None, Some(m)) => method_listed(m, method),
        (None, None) => true,
    }
}

pub open spec fn status_of(c: &Config) -> u16 {
    match c.response_status {
        Some(s) => s,
        None => 200,
    }
}

/// The body of every response when none is configured.
pub open spec fn default_body() -> Seq<char> {
    json_object_text(seq![("status"@, "ok"@)]) + "\n"@
}

/// The response body: the file's text (or a fixed notice where it could not
/// be read), else the configured body with a newline, else the default.
pub open spec fn body_of(c: &Config, file_contents: Option<Seq<char>>) -> Seq<char> {
    if c.response_body_file is Some {
        match file_contents {
            Some(t) => t,
            None => "Error reading file"@,
        }
    } else if c.response_body is Some {
        c.response_body->0@ + "\n"@
    } else {
        default_body()
    }
}

pub open spec fn headers_of_config(c: &Config) -> Seq<(Seq<char>, Seq<char>)> {
    match c.response_headers {
        Some(h) => pair_views(h@),
        None => Seq::empty(),
    }
}

/// What the server sends back for a request, and whether it logs it.
pub struct Reply {
    pub status: u16,
    pub headers: Vec<(String, String)>,
    pub body: String,
    pub log: bool,
}

fn any_prefix(routes: &Vec<String>, path: &str) -> (r: bool)
    ensures
        r == route_matches(views(routes@), path@),
{
    let mut i: usize = 0;
    while i < routes.len()
        invariant
            i <= routes.len(),
            forall|j: int| 0 <= j < i ==> !is_prefix(#[trigger] routes@[j]@, path@),
        decreases routes.len() - i,
    {
        if starts_with(path, routes[i].as_str()) {
            assert(views(routes@)[i as int] == routes@[i as int]@);
            return true;
        }
        i += 1;
    }
    assert forall|j: int| 0 <= j < views(routes@).len() implies !is_prefix(
        #[trigger] views(routes@)[j],
        path@,
    ) by {
        assert(views(routes@)[j] == routes@[j]@);
    }
    false
}

fn any_equal(methods: &Vec<String>, method: &str) -> (r: bool)
    ensures
        r == method_listed(views(methods@), method@),
{
    let mut i: usize = 0;
    while i < methods.len()
        invariant
            i <= methods.len(),
            forall|j: int| 0 <= j < i ==> #[trigger] methods@[j]@ != method@,
        decreases methods.len() - i,
    {
        if same_text(methods[i].as_str(), method) {
            assert(views(methods@)[i as int] == methods@[i as int]@);
            return true;
        }
        i += 1;
    }
    assert forall|j: int| 0 <= j < views(methods@).len() implies #[trigger] views(methods@)[j]
        != method@ by {
        assert(views(methods@)[j] == methods@[j]@);
    }
    false
}

fn copy_pairs(v: &Vec<(String, String)>) -> (r: Vec<(String, String)>)
    ensures
        pair_views(r@) == pair_views(v@),
{
    let mut out: Vec<(String, String)> = Vec::new();
    let mut i: usize = 0;
    while i < v.len()
        invariant
            i <= v.len(),
            out@.len() == i,
            forall|j: int| 0 <= j < i ==> #[trigger] out@[j].0@ == v@[j].0@ && out@[j].1@ == v@[j].1@,
        decreases v.len() - i,
    {
        out.push((v[i].0.clone(), v[i].1.clone()));
        i += 1;
    }
    assert(pair_views(out@) =~= pair_views(v@));
    out
}

impl Config {
    /// Whether a request with this method and path is logged.
    pub fn should_log(&self, method: &str, path: &str) -> (r: bool)
        ensures
            r == log_decision(opt_views(self.filter_routes), opt_views(self.filter_methods), path@, method@),
    {
        match (&self.filter_routes, &self.filter_methods) {
            (Some(routes), Some(methods)) => any_prefix(routes, path) && any_equal(methods, method),
            (Some(routes), None) => any_prefix(routes, path),
            (None, Some(methods)) => any_equal(methods, method),
            (None, None) => true,
        }
    }

    /// The status of every response: the configured one, else 200.
    pub fn status(&self) -> (r: u16)
        ensures
            r == status_of(self),
    {
        match self.response_status {
            Some(s) => s,
            None => 200,
        }
    }

    /// The body of a response. `file_contents` is what reading the
    /// configured body file gave, `None` where the read failed; it is
    /// looked at only where a body file is configured.
    pub fn response_body(&self, file_contents: Option<String>) -> (r: String)
        ensures
            r@ == body_of(self, crate::config::opt_view(file_contents)),
    {
        if self.response_body_file.is_some() {
            match file_contents {
                Some(t) => t,
                None => String::from_str("Error reading file"),
            }
        } else {
            match &self.response_body {
                Some(b) => b.clone().concat("\n"),
                None => default_body_text(),
            }
        }
    }

    /// The headers of every response, in their configured order.
    pub fn response_headers(&self) -> (r: Vec<(String, String)>)
        ensures
            pair_views(r@) == headers_of_config(self),
    {
        match &self.response_headers {
            Some(h) => copy_pairs(h),
            None => {
                let r: Vec<(String, String)> = Vec::new();
                assert(pair_views(r@) =~= Seq::empty());
                r
            },
        }
    }
}

/// `{"status":"ok"}` followed by a newline.
pub fn default_body_text() -> (r: String)
    ensures
        r@ == default_body(),
{
    let fields = vec![(String::from_str("status"), String::from_str("ok"))];
    assert(pair_views(fields@) =~= seq![("status"@, "ok"@)]);
    json_object(&fields).concat("\n")
}

/// The log record of a request: a JSON object of its timestamp, method,
/// URI, rendered headers and body.
pub fn log_record(timestamp: &str, method: &str, uri: &str, headers: &str, body: &str) -> (r: String)
    ensures
        r@ == json_object_text(
            seq![
                ("timestamp"@, timestamp@),
                ("method"@, method@),
                ("uri"@, uri@),
                ("headers"@, headers@),
                ("body"@, body@),
            ],
        ),
{
    let fields = vec![
        (String::from_str("timestamp"), timestamp.to_owned()),
        (String::from_str("method"), method.to_owned()),
        (String::from_str("uri"), uri.to_owned()),
        (String::from_str("headers"), headers.to_owned()),
        (String::from_str("body"), body.to_owned()),
    ];
    assert(pair_views(fields@) =~= seq![
        ("timestamp"@, timestamp@),
        ("method"@, method@),
        ("uri"@, uri@),
        ("headers"@, headers@),
        ("body"@, body@),
    ]);
    json_object(&fields)
}

/// Handles one request: counts it where metrics are enabled, decides whether
/// it is logged, and builds the response.
pub fn handle(
    config: &Config,
    metrics: &mut Metrics,
    method: &str,
    path: &str,
    file_contents: Option<String>,
) -> (r: Reply)
    ensures
        r.log == log_decision(opt_views(config.filter_routes), opt_views(config.filter_methods), path@, method@),
        r.status == status_of(config),
        r.body@ == body_of(config, crate::config::opt_view(file_contents)),
        pair_views(r.headers@) == headers_of_config(config),
        config.metrics_enabled ==> {
            &&& total_of(*final(metrics)) == wrap_inc(total_of(*old(metrics)))
            &&& method_counts(*final(metrics)) == bump(method_counts(*old(metrics)), method@)
            &&& status_counts(*final(metrics)) == bump(
                status_counts(*old(metrics)),
                decimal(status_of(config) as nat),
            )
        },
        !config.metrics_enabled ==> *final(metrics) == *old(metrics),
{
    if config.metrics_enabled {
        metrics.record_request(method);
    }
    let log = config.should_log(method, path);
    let status = config.status();
    let body = config.response_body(file_contents);
    let headers = config.response_headers();
    if config.metrics_enabled {
        metrics.record_response(status);
    }
    Reply { status, headers, body, log }
}

/// With only the route filter set, a request is logged exactly when some
/// route is a prefix of its path, whatever its method.
pub proof fn lemma_route_filter_alone(routes: Seq<Seq<char>>, path: Seq<char>, method: Seq<char>)
    ensures
        log_decision(Some(routes), None, path, method) == route_matches(routes, path),
{
}

/// With the single route `/api` and no method filter, a request is logged
/// exactly when its path starts with `/api`.
pub proof fn lemma_single_route_filter(path: Seq<char>, method: Seq<char>)
    ensures
        log_decision(Some(seq!["/api"@]), None, path, method) == is_prefix("/api"@, path),
{
    let routes = seq!["/api"@];
    if is_prefix("/api"@, path) {
        assert(is_prefix(routes[0], path));
    }
}

/// With both filters set, a request is logged exactly when its path matches
/// a route and its method is listed.
pub proof fn lemma_both_filters(
    routes: Seq<Seq<char>>,
    methods: Seq<Seq<char>>,
    path: Seq<char>,
    method: Seq<char>,
)
    ensures
        log_decision(Some(routes), Some(methods), path, method) == (route_matches(routes, path)
            && method_listed(methods, method)),
        !route_matches(routes, path) ==> !log_decision(Some(routes), Some(methods), path, method),
        !method_listed(methods, method) ==> !log_decision(
            Some(routes),
            Some(methods),
            path,
            method,
        ),
{
}

} // verus!
