//! Startup configuration: the parsers of its raw options, and its validation.
use vstd::prelude::*;
use vstd::string::*;
use crate::metrics::{decimal, decimal_text};
use crate::text::{find_char, index_of, split_on, split_text, trim, trim_text, views};

verus! {

/// The index of the first entry of `ps` that `ok` rejects, or the length of `ps`.
pub open spec fn first_failure(ps: Seq<Seq<char>>, ok: spec_fn(Seq<char>) -> bool) -> int
    decreases ps.len(),
{
    if ps.len() == 0 {
        0
    } else if !ok(ps[0]) {
        0
    } else {
        1 + first_failure(ps.drop_first(), ok)
    }
}

pub proof fn lemma_first_failure(ps: Seq<Seq<char>>, ok: spec_fn(Seq<char>) -> bool, k: int)
    requires
        0 <= k <= ps.len(),
        forall|j: int| 0 <= j < k ==> ok(ps[j]),
        k == ps.len() || !ok(ps[k]),
    ensures
        first_failure(ps, ok) == k,
    decreases k,
{
    if k > 0 {
        let t = ps.drop_first();
        assert forall|j: int| 0 <= j < k - 1 implies ok(t[j]) by {
            assert(t[j] == ps[j + 1]);
        }
        lemma_first_failure(t, ok, k - 1);
    }
}

// ---- header lists ----

/// A byte that `HeaderValue` accepts: visible, or a tab; every non-ASCII
/// character encodes to such bytes.
pub open spec fn is_header_value_char(c: char) -> bool {
    c as u32 == 9 || (c as u32 >= 32 && c as u32 != 127)
}

pub open spec fn is_header_value(s: Seq<char>) -> bool {
    forall|i: int| 0 <= i < s.len() ==> is_header_value_char(#[trigger] s[i])
}

/// Relies on `http::HeaderValue::from_str`: it accepts exactly the strings
/// whose bytes are all tabs or lie in 32..=255 without 127.
#[verifier::external_body]
fn header_value_ok(s: &str) -> (r: bool)
    ensures
        r == is_header_value(s@),
{
    axum::http::HeaderValue::from_str(s).is_ok()
}

/// A character of a header name as `HeaderName` accepts it.
pub open spec fn is_header_name_char(c: char) -> bool {
    let u = c as u32;
    ||| 48 <= u && u <= 57
    ||| 65 <= u && u <= 90
    ||| 97 <= u && u <= 122
    ||| 33 <= u && u <= 39
    ||| u == 42 || u == 43 || u == 45 || u == 46
    ||| u == 94 || u == 95 || u == 96 || u == 124 || u == 126
}

pub open spec fn is_header_name(s: Seq<char>) -> bool {
    &&& 0 < s.len() && s.len() < 0x10000
    &&& forall|i: int| 0 <= i < s.len() ==> is_header_name_char(#[trigger] s[i])
}

/// Relies on `http::HeaderName::from_bytes`: it accepts exactly the byte
/// strings of 1 to 65535 bytes whose every byte is a token character of its
/// table; non-ASCII characters encode to bytes outside it.
#[verifier::external_body]
fn header_name_ok(s: &str) -> (r: bool)
    ensures
        r == is_header_name(s@),
{
    axum::http::HeaderName::from_bytes(s.as_bytes()).is_ok()
}

pub open spec fn has_colon(p: Seq<char>) -> bool {
    index_of(p, ':') < p.len()
}

/// The key of an entry `key:value`: what stands before its first colon, trimmed.
pub open spec fn header_key(p: Seq<char>) -> Seq<char> {
    trim(p.subrange(0, index_of(p, ':')))
}

/// The value of an entry `key:value`: what follows its first colon, trimmed.
pub open spec fn header_value(p: Seq<char>) -> Seq<char> {
    trim(p.subrange(index_of(p, ':') + 1, p.len() as int))
}

pub open spec fn header_entry_ok(p: Seq<char>) -> bool {
    has_colon(p) && is_header_name(header_key(p)) && is_header_value(header_value(p))
}

pub open spec fn header_entry_error(p: Seq<char>) -> Seq<char> {
    if !has_colon(p) {
        "Invalid header format: "@ + p
    } else if !is_header_name(header_key(p)) {
        "Invalid header name: "@ + header_key(p)
    } else {
        "Invalid header value: "@ + header_value(p)
    }
}

pub open spec fn header_entries(s: Seq<char>) -> Seq<Seq<char>> {
    split_on(s, ',')
}

pub open spec fn header_failure(s: Seq<char>) -> int {
    first_failure(header_entries(s), |p: Seq<char>| header_entry_ok(p))
}

pub open spec fn headers_ok(s: Seq<char>) -> bool {
    header_failure(s) == header_entries(s).len()
}

/// The pairs that a valid header list stands for, in order.
pub open spec fn headers_of(s: Seq<char>) -> Seq<(Seq<char>, Seq<char>)> {
    header_entries(s).map_values(|p: Seq<char>| (header_key(p), header_value(p)))
}

pub open spec fn headers_error(s: Seq<char>) -> Seq<char> {
    header_entry_error(header_entries(s)[header_failure(s)])
}

pub open spec fn pair_views(v: Seq<(String, String)>) -> Seq<(Seq<char>, Seq<char>)> {
    v.map_values(|p: (String, String)| (p.0@, p.1@))
}

/// Parses a comma-separated list of `key:value` entries, each split at its
/// first colon, key and value trimmed. The first entry without a colon, or
/// with a name or a value that no header may carry, is the error.
pub fn parse_headers(s: &str) -> (r: Result<Vec<(String, String)>, String>)
    ensures
        r is Ok <==> headers_ok(s@),
        r matches Ok(v) ==> pair_views(v@) == headers_of(s@),
        r matches Ok(v) ==> forall|i: int|
            0 <= i < v@.len() ==> is_header_name(#[trigger] v@[i].0@) && is_header_value(v@[i].1@),
        r matches Err(e) ==> e@ == headers_error(s@),
{
    let entries = split_text(s, ',');
    let ghost ps = header_entries(s@);
    let ghost ok = |p: Seq<char>| header_entry_ok(p);
    let mut out: Vec<(String, String)> = Vec::new();
    let mut i: usize = 0;
    while i < entries.len()
        invariant
            views(entries@) == ps,
            ps == header_entries(s@),
            ok == (|p: Seq<char>| header_entry_ok(p)),
            i <= entries.len(),
            out@.len() == i,
            ps.len() == entries.len(),
            forall|j: int| 0 <= j < i ==> ok(ps[j]),
            forall|j: int|
                0 <= j < i ==> is_header_name(#[trigger] out@[j].0@) && is_header_value(out@[j].1@),
            forall|j: int|
                0 <= j < i ==> #[trigger] pair_views(out@)[j] == (
                    header_key(ps[j]),
                    header_value(ps[j]),
                ),
        decreases entries.len() - i,
    {
        let entry = entries[i].as_str();
        assert(entry@ == ps[i as int]);
        let k = find_char(entry, ':');
        let n = entry.unicode_len();
        if k == n {
            proof {
                lemma_first_failure(ps, ok, i as int);
            }
            return Err(String::from_str("Invalid header format: ").concat(entry));
        }
        let key = trim_text(entry.substring_char(0, k));
        let value = trim_text(entry.substring_char(k + 1, n));
        if !header_name_ok(key.as_str()) {
            proof {
                lemma_first_failure(ps, ok, i as int);
            }
            return Err(String::from_str("Invalid header name: ").concat(key.as_str()));
        }
        if !header_value_ok(value.as_str()) {
            proof {
                lemma_first_failure(ps, ok, i as int);
            }
            return Err(String::from_str("Invalid header value: ").concat(value.as_str()));
        }
        let ghost before = out@;
        assert(key@ == header_key(ps[i as int]));
        assert(value@ == header_value(ps[i as int]));
        out.push((key, value));
        proof {
            assert(pair_views(out@)[i as int] == (header_key(ps[i as int]), header_value(ps[i as int])));
            assert forall|j: int| 0 <= j < i + 1 implies #[trigger] pair_views(out@)[j] == (
                header_key(ps[j]),
                header_value(ps[j]),
            ) by {
                if j < i {
                    assert(out@[j] == before[j]);
                    assert(is_header_name(before[j].0@) && is_header_value(before[j].1@));
                    assert(pair_views(before)[j] == (header_key(ps[j]), header_value(ps[j])));
                }
            }
        }
        i += 1;
    }
    proof {
        lemma_first_failure(ps, ok, i as int);
        assert(pair_views(out@) =~= headers_of(s@));
    }
    Ok(out)
}

// ---- method lists ----

/// A character of an HTTP method token as `http::Method` accepts it.
pub open spec fn is_method_char(c: char) -> bool {
    let u = c as u32;
    ||| 48 <= u && u <= 57
    ||| 65 <= u && u <= 90
    ||| 97 <= u && u <= 122
    ||| u == 33 || u == 42 || u == 43 || u == 45 || u == 46
    ||| u == 94 || u == 95 || u == 96 || u == 124 || u == 126
}

pub open spec fn is_method_token(s: Seq<char>) -> bool {
    s.len() > 0 && forall|i: int| 0 <= i < s.len() ==> is_method_char(#[trigger] s[i])
}

/// `r` is `s` with the ASCII letters `a` to `z` turned into `A` to `Z`.
pub open spec fn is_upper_of(r: Seq<char>, s: Seq<char>) -> bool {
    &&& r.len() == s.len()
    &&& forall|i: int|
        0 <= i < s.len() ==> #[trigger] r[i] as u32 == if 97 <= s[i] as u32 && s[i] as u32 <= 122 {
            s[i] as u32 - 32int
        } else {
            s[i] as u32 as int
        }
}

/// Relies on `http::Method::from_bytes`: it accepts exactly the non-empty
/// byte strings whose every byte is a token character of its table.
#[verifier::external_body]
fn method_token_ok(s: &str) -> (r: bool)
    ensures
        r == is_method_token(s@),
{
    axum::http::Method::from_bytes(s.as_bytes()).is_ok()
}

/// Relies on `str::to_ascii_uppercase`: ASCII lower-case letters become
/// upper-case, every other character stays.
#[verifier::external_body]
fn ascii_upper(s: &str) -> (r: String)
    ensures
        is_upper_of(r@, s@),
{
    s.to_ascii_uppercase()
}

pub open spec fn method_entries(s: Seq<char>) -> Seq<Seq<char>> {
    split_on(s, ',')
}

pub open spec fn method_failure(s: Seq<char>) -> int {
    first_failure(method_entries(s), |p: Seq<char>| is_method_token(p))
}

pub open spec fn methods_ok(s: Seq<char>) -> bool {
    method_failure(s) == method_entries(s).len()
}

pub open spec fn methods_error(s: Seq<char>) -> Seq<char> {
    "Invalid HTTP method: "@ + method_entries(s)[method_failure(s)]
}

/// `ms` holds, in order, the upper-case form of each method of the list `s`.
pub open spec fn methods_of(ms: Seq<Seq<char>>, s: Seq<char>) -> bool {
    &&& ms.len() == method_entries(s).len()
    &&& forall|i: int| 0 <= i < ms.len() ==> is_upper_of(#[trigger] ms[i], method_entries(s)[i])
}

/// Parses a comma-separated list of HTTP methods, each made upper-case. The
/// first entry that is no method token is the error.
pub fn parse_methods(s: &str) -> (r: Result<Vec<String>, String>)
    ensures
        r is Ok <==> methods_ok(s@),
        r matches Ok(v) ==> methods_of(views(v@), s@),
        r matches Err(e) ==> e@ == methods_error(s@),
{
    let entries = split_text(s, ',');
    let ghost ps = method_entries(s@);
    let ghost ok = |p: Seq<char>| is_method_token(p);
    let mut out: Vec<String> = Vec::new();
    let mut i: usize = 0;
    while i < entries.len()
        invariant
            views(entries@) == ps,
            ps == method_entries(s@),
            ok == (|p: Seq<char>| is_method_token(p)),
            i <= entries.len(),
            out@.len() == i,
            ps.len() == entries.len(),
            forall|j: int| 0 <= j < i ==> ok(ps[j]),
            forall|j: int| 0 <= j < i ==> is_upper_of(#[trigger] views(out@)[j], ps[j]),
        decreases entries.len() - i,
    {
        let entry = entries[i].as_str();
        assert(entry@ == ps[i as int]);
        let upper = ascii_upper(entry);
        if !method_token_ok(upper.as_str()) {
            proof {
                assert forall|j: int| 0 <= j < entry@.len() implies #[trigger] is_method_char(entry@[j])
                    == is_method_char(upper@[j]) by {
                    assert(is_upper_of(upper@, entry@));
                }
                lemma_first_failure(ps, ok, i as int);
            }
            return Err(String::from_str("Invalid HTTP method: ").concat(entry));
        }
        proof {
            assert forall|j: int| 0 <= j < entry@.len() implies #[trigger] is_method_char(entry@[j])
                by {
                assert(is_upper_of(upper@, entry@));
                assert(is_method_char(upper@[j]));
            }
        }
        let ghost before = out@;
        out.push(upper);
        proof {
            assert forall|j: int| 0 <= j < i + 1 implies is_upper_of(#[trigger] views(out@)[j], ps[j]) by {
                if j < i {
                    assert(out@[j] == before[j]);
                    assert(views(before)[j] == before[j]@);
                }
            }
        }
        i += 1;
    }
    proof {
        lemma_first_failure(ps, ok, i as int);
    }
    Ok(out)
}

// ---- status codes ----

/// The value of a string of decimal digits.
pub open spec fn digits_value(s: Seq<char>) -> int
    decreases s.len(),
{
    if s.len() == 0 {
        0
    } else {
        digits_value(s.drop_last()) * 10 + (s.last() as u32 - 48int)
    }
}

pub open spec fn all_digits(s: Seq<char>) -> bool {
    forall|i: int| 0 <= i < s.len() ==> 48 <= #[trigger] (s[i] as u32) && (s[i] as u32) <= 57
}

/// `s` without one leading `+`, the sign that `u16::from_str` allows.
pub open spec fn unsigned_digits(s: Seq<char>) -> Seq<char> {
    if s.len() > 0 && s[0] == '+' {
        s.drop_first()
    } else {
        s
    }
}

/// `s` reads as a `u16`.
pub open spec fn reads_as_u16(s: Seq<char>) -> bool {
    let d = unsigned_digits(s);
    d.len() > 0 && all_digits(d) && digits_value(d) < 0x10000
}

pub open spec fn u16_value(s: Seq<char>) -> int {
    digits_value(unsigned_digits(s))
}

/// `s` names a status code of the registered ranges.
pub open spec fn status_ok(s: Seq<char>) -> bool {
    reads_as_u16(s) && 100 <= u16_value(s) && u16_value(s) <= 599
}

pub open spec fn capped(x: int) -> int {
    if x > 0x10000 {
        0x10000
    } else {
        x
    }
}

/// Reads `s` as an unsigned 16-bit decimal number, with an optional `+`.
pub fn parse_u16(s: &str) -> (r: Option<u16>)
    ensures
        r is Some <==> reads_as_u16(s@),
        r matches Some(v) ==> v as int == u16_value(s@),
{
    let n = s.unicode_len();
    let mut i: usize = 0;
    if n > 0 && s.get_char(0) == '+' {
        i = 1;
    }
    let ghost d = unsigned_digits(s@);
    assert(d =~= s@.subrange(i as int, n as int));
    if i == n {
        return None;
    }
    let start = i;
    let mut v: u64 = 0;
    assert(d.subrange(0, 0) =~= Seq::<char>::empty());
    while i < n
        invariant
            start <= i <= n,
            n == s@.len(),
            d == s@.subrange(start as int, n as int),
            d == unsigned_digits(s@),
            all_digits(d.subrange(0, i - start)),
            v as int == capped(digits_value(d.subrange(0, i - start))),
            digits_value(d.subrange(0, i - start)) >= 0,
        decreases n - i,
    {
        let c = s.get_char(i);
        let u = c as u32;
        if u < 48 || u > 57 {
            assert(d[i - start] == c);
            assert(!(48 <= (d[i - start] as u32) && (d[i - start] as u32) <= 57));
            return None;
        }
        let ghost pre = d.subrange(0, i - start);
        let ghost next = d.subrange(0, i - start + 1);
        assert(next.drop_last() =~= pre);
        assert(next.last() == c);
        v = v * 10 + (u - 48) as u64;
        if v > 0x10000 {
            v = 0x10000;
        }
        i += 1;
        assert(all_digits(next));
    }
    assert(d.subrange(0, n - start) =~= d);
    if v < 0x10000 {
        Some(v as u16)
    } else {
        None
    }
}

/// Relies on `http::StatusCode::from_u16`: it accepts exactly 100..=999.
#[verifier::external_body]
fn status_code_ok(c: u16) -> (r: bool)
    ensures
        r == (100 <= c && c < 1000),
{
    axum::http::StatusCode::from_u16(c).is_ok()
}

/// The message for a rejected status code: the number it reads as, or the
/// text itself where it reads as none.
pub open spec fn status_error(s: Seq<char>) -> Seq<char> {
    "Invalid status code: "@ + if reads_as_u16(s) {
        decimal(u16_value(s) as nat)
    } else {
        s
    }
}

/// Parses a status code: an unsigned 16-bit number within 100..=599.
pub fn parse_status_code(s: &str) -> (r: Result<u16, String>)
    ensures
        r is Ok <==> status_ok(s@),
        r matches Ok(c) ==> c as int == u16_value(s@),
        r matches Err(e) ==> e@ == status_error(s@),
{
    match parse_u16(s) {
        Some(c) => {
            if status_code_ok(c) && c <= 599 {
                Ok(c)
            } else {
                Err(String::from_str("Invalid status code: ").concat(decimal_text(c).as_str()))
            }
        },
        None => Err(String::from_str("Invalid status code: ").concat(s)),
    }
}

// ---- the configuration ----

/// The options the sink runs with, fixed at startup.
pub struct Config {
    pub listen_addr: String,
    pub port: u16,
    /// Headers added to every response, in order.
    pub response_headers: Option<Vec<(String, String)>>,
    pub response_body: Option<String>,
    /// Read at request time; takes precedence over `response_body`.
    pub response_body_file: Option<String>,
    /// Path prefixes of the requests that are logged.
    pub filter_routes: Option<Vec<String>>,
    /// Upper-case methods of the requests that are logged.
    pub filter_methods: Option<Vec<String>>,
    pub response_status: Option<u16>,
    pub metrics_enabled: bool,
}

pub open spec fn opt_view(o: Option<String>) -> Option<Seq<char>> {
    match o {
        Some(x) => Some(x@),
        None => None,
    }
}

pub open spec fn opt_views(o: Option<Vec<String>>) -> Option<Seq<Seq<char>>> {
    match o {
        Some(v) => Some(views(v@)),
        None => None,
    }
}

impl Config {
    /// Every header name and value may stand in a response, and the status
    /// code lies in the registered ranges.
    pub open spec fn wf(&self) -> bool {
        &&& self.response_status matches Some(c) ==> 100 <= c && c <= 599
        &&& self.response_headers matches Some(h) ==> forall|i: int|
            0 <= i < h@.len() ==> is_header_name(#[trigger] h@[i].0@) && is_header_value(h@[i].1@)
    }

    /// The configuration that the raw options describe.
    pub open spec fn built_from(
        &self,
        listen_addr: Seq<char>,
        port: u16,
        response_headers: Option<Seq<char>>,
        response_body: Option<String>,
        response_body_file: Option<String>,
        filter_routes: Option<Seq<char>>,
        filter_methods: Option<Seq<char>>,
        response_status: Option<Seq<char>>,
        disable_metrics: bool,
    ) -> bool {
        &&& self.listen_addr@ == listen_addr
        &&& self.port == port
        &&& self.response_body == response_body
        &&& self.response_body_file == response_body_file
        &&& self.metrics_enabled == !disable_metrics
        &&& match response_headers {
            None => self.response_headers is None,
            Some(x) => self.response_headers matches Some(v) && pair_views(v@) == headers_of(x),
        }
        &&& match filter_routes {
            None => self.filter_routes is None,
            Some(x) => self.filter_routes matches Some(v) && views(v@) == split_on(x, ','),
        }
        &&& match filter_methods {
            None => self.filter_methods is None,
            Some(x) => self.filter_methods matches Some(v) && methods_of(views(v@), x),
        }
        &&& match response_status {
            None => self.response_status is None,
            Some(x) => self.response_status matches Some(c) && c as int == u16_value(x),
        }
    }

    /// Validates the raw options. The header list, the method list and the
    /// status code are checked in this order; the first that fails is the
    /// error, and no configuration comes out.
    pub fn validate(
        listen_addr: String,
        port: u16,
        response_headers: Option<String>,
        response_body: Option<String>,
        response_body_file: Option<String>,
        filter_routes: Option<String>,
        filter_methods: Option<String>,
        response_status: Option<String>,
        disable_metrics: bool,
    ) -> (r: Result<Config, String>)
        ensures
            r is Ok <==> {
                &&& response_headers matches Some(x) ==> headers_ok(x@)
                &&& filter_methods matches Some(x) ==> methods_ok(x@)
                &&& response_status matches Some(x) ==> status_ok(x@)
            },
            r matches Err(e) ==> e@ == if response_headers matches Some(x) && !headers_ok(x@) {
                headers_error(response_headers->0@)
            } else if filter_methods matches Some(x) && !methods_ok(x@) {
                methods_error(filter_methods->0@)
            } else {
                status_error(response_status->0@)
            },
            r matches Ok(c) ==> c.wf() && c.built_from(
                listen_addr@,
                port,
                opt_view(response_headers),
                response_body,
                response_body_file,
                opt_view(filter_routes),
                opt_view(filter_methods),
                opt_view(response_status),
                disable_metrics,
            ),
    {
        let headers = match &response_headers {
            Some(x) => match parse_headers(x.as_str()) {
                Ok(v) => Some(v),
                Err(e) => {
                    return Err(e);
                },
            },
            None => None,
        };
        let methods = match &filter_methods {
            Some(x) => match parse_methods(x.as_str()) {
                Ok(v) => Some(v),
                Err(e) => {
                    return Err(e);
                },
            },
            None => None,
        };
        let status = match &response_status {
            Some(x) => match parse_status_code(x.as_str()) {
                Ok(c) => Some(c),
                Err(e) => {
                    return Err(e);
                },
            },
            None => None,
        };
        let routes = match &filter_routes {
            Some(x) => Some(split_text(x.as_str(), ',')),
            None => None,
        };
        Ok(Config {
            listen_addr,
            port,
            response_headers: headers,
            response_body,
            response_body_file,
            filter_routes: routes,
            filter_methods: methods,
            response_status: status,
            metrics_enabled: !disable_metrics,
        })
    }
}

} // verus!
