//! Request options and their resolution into a transport plan.
//!
//! The transport layer performs the exchange; everything it must decide
//! from the caller's options — method, timeouts, redirect policy, HTTP
//! version, the `-H`/`-d` passthrough scan — is resolved here, exactly.

use vstd::prelude::*;

use crate::error::AvanteCurlError;
use crate::record::{header_seq, opt_string_view};
use crate::strkit::{chars_of, slice_of, string_from_chars, trim_chars, trim_spec};

verus! {

/// serde_json's JSON value, carried through opaquely as a structured
/// request body.
#[verifier::external_type_specification]
#[verifier::external_body]
pub struct ExValue(serde_json::Value);

/// A request body: raw text, a structured JSON value, or a path of a file
/// whose contents to send.
pub enum RequestBody {
    Raw(String),
    Json(serde_json::Value),
    File(String),
}

/// Basic-auth credentials.
pub struct AuthInfo {
    pub username: String,
    pub password: String,
}

/// Everything a caller may specify for one request.
pub struct RequestOptions {
    pub url: String,
    pub method: Option<String>,
    pub headers: Option<Vec<(String, String)>>,
    pub body: Option<RequestBody>,
    pub query: Option<Vec<(String, String)>>,
    pub form: Option<Vec<(String, String)>>,
    pub auth: Option<AuthInfo>,
    pub timeout: Option<u64>,
    pub dump: Option<Vec<String>>,
    pub output: Option<String>,
    pub follow_redirects: Option<bool>,
    pub insecure: Option<bool>,
    pub proxy: Option<String>,
    pub compressed: Option<bool>,
    pub raw: Option<Vec<String>>,
    pub http_version: Option<String>,
}

impl Default for RequestOptions {
    /// Options with an empty URL and nothing else set.
    fn default() -> (r: Self)
        ensures
            r.url@ == Seq::<char>::empty(),
            r.method is None,
            r.headers is None,
            r.body is None,
            r.query is None,
            r.form is None,
            r.auth is None,
            r.timeout is None,
            r.dump is None,
            r.output is None,
            r.follow_redirects is None,
            r.insecure is None,
            r.proxy is None,
            r.compressed is None,
            r.raw is None,
            r.http_version is None,
    {
        RequestOptions {
            url: String::new(),
            method: None,
            headers: None,
            body: None,
            query: None,
            form: None,
            auth: None,
            timeout: None,
            dump: None,
            output: None,
            follow_redirects: None,
            insecure: None,
            proxy: None,
            compressed: None,
            raw: None,
            http_version: None,
        }
    }
}

/// The supported HTTP methods.
#[derive(Debug, Clone, Copy, PartialEq, Eq, Structural)]
pub enum HttpMethod {
    Get,
    Post,
    Put,
    Delete,
    Head,
    Options,
    Patch,
}

/// The method a method string names; an absent string means GET.
pub open spec fn spec_resolve_method(m: Option<Seq<char>>) -> Option<HttpMethod> {
    match m {
        None => Some(HttpMethod::Get),
        Some(s) => if s == "GET"@ {
            Some(HttpMethod::Get)
        } else if s == "POST"@ {
            Some(HttpMethod::Post)
        } else if s == "PUT"@ {
            Some(HttpMethod::Put)
        } else if s == "DELETE"@ {
            Some(HttpMethod::Delete)
        } else if s == "HEAD"@ {
            Some(HttpMethod::Head)
        } else if s == "OPTIONS"@ {
            Some(HttpMethod::Options)
        } else if s == "PATCH"@ {
            Some(HttpMethod::Patch)
        } else {
            None
        },
    }
}

/// Resolve the method string: GET when absent, an `InvalidConfig` error
/// naming the method when unsupported.
pub fn resolve_method(method: &Option<String>) -> (r: Result<HttpMethod, AvanteCurlError>)
    ensures
        ({
            let m = spec_resolve_method(opt_string_view_ref(method));
            match r {
                Ok(hm) => m == Some(hm),
                Err(e) => {
                    &&& m is None
                    &&& method matches Some(ms) && e matches AvanteCurlError::InvalidConfig(msg)
                        && msg@ == "Unsupported HTTP method: "@ + ms@
                },
            }
        }),
{
    match method {
        None => Ok(HttpMethod::Get),
        Some(ms) => {
            if *ms == "GET".to_owned() {
                Ok(HttpMethod::Get)
            } else if *ms == "POST".to_owned() {
                Ok(HttpMethod::Post)
            } else if *ms == "PUT".to_owned() {
                Ok(HttpMethod::Put)
            } else if *ms == "DELETE".to_owned() {
                Ok(HttpMethod::Delete)
            } else if *ms == "HEAD".to_owned() {
                Ok(HttpMethod::Head)
            } else if *ms == "OPTIONS".to_owned() {
                Ok(HttpMethod::Options)
            } else if *ms == "PATCH".to_owned() {
                Ok(HttpMethod::Patch)
            } else {
                Err(
                    AvanteCurlError::InvalidConfig(
                        "Unsupported HTTP method: ".to_owned().concat(ms.as_str()),
                    ),
                )
            }
        },
    }
}

/// View of an optional string behind a reference.
pub open spec fn opt_string_view_ref(s: &Option<String>) -> Option<Seq<char>> {
    match s {
        Some(t) => Some(t@),
        None => None,
    }
}

/// How the transport should treat redirects.
#[derive(Debug, Clone, Copy, PartialEq, Eq, Structural)]
pub enum RedirectPolicy {
    /// Follow up to this many redirects.
    Limited(u32),
    /// Do not follow redirects.
    NoFollow,
    /// Leave the transport's default in place.
    Automatic,
}

/// Which HTTP protocol versions the transport may negotiate.
#[derive(Debug, Clone, Copy, PartialEq, Eq, Structural)]
pub enum HttpVersionChoice {
    /// HTTP/1 only (requested version "1.0" or "1.1").
    Http1Only,
    /// HTTP/2 with prior knowledge (requested version "2").
    Http2PriorKnowledge,
    /// Leave the transport's default negotiation in place.
    Automatic,
}

/// The version choice a version string names.
pub open spec fn spec_version_choice(v: Option<Seq<char>>) -> Option<HttpVersionChoice> {
    match v {
        None => Some(HttpVersionChoice::Automatic),
        Some(s) => if s == "1.0"@ || s == "1.1"@ {
            Some(HttpVersionChoice::Http1Only)
        } else if s == "2"@ {
            Some(HttpVersionChoice::Http2PriorKnowledge)
        } else {
            None
        },
    }
}

/// The resolved transport plan for building one client.
#[derive(Debug)]
pub struct ClientConfig {
    /// Request timeout in seconds; 60 when the caller gave none.
    pub timeout_secs: u64,
    pub redirect: RedirectPolicy,
    /// Skip TLS certificate verification.
    pub accept_invalid_certs: bool,
    /// Decompress gzip, deflate and brotli bodies; on by default.
    pub compression: bool,
    pub proxy: Option<String>,
    pub http_version: HttpVersionChoice,
}

/// Resolve client construction options.
///
/// The timeout defaults to 60 seconds; `follow_redirects` chooses between
/// a 10-hop limit and no redirects; compression defaults to on; an
/// unsupported HTTP version string is refused with an `InvalidConfig`
/// error naming it.
pub fn resolve_client_config(options: &RequestOptions) -> (r: Result<
    ClientConfig,
    AvanteCurlError,
>)
    ensures
        ({
            let vc = spec_version_choice(opt_string_view_ref(&options.http_version));
            match r {
                Ok(c) => {
                    &&& vc == Some(c.http_version)
                    &&& c.timeout_secs == (match options.timeout {
                        Some(t) => t,
                        None => 60u64,
                    })
                    &&& c.redirect == (match options.follow_redirects {
                        Some(true) => RedirectPolicy::Limited(10u32),
                        Some(false) => RedirectPolicy::NoFollow,
                        None => RedirectPolicy::Automatic,
                    })
                    &&& c.accept_invalid_certs == (options.insecure == Some(true))
                    &&& c.compression == (match options.compressed {
                        Some(z) => z,
                        None => true,
                    })
                    &&& opt_string_view(c.proxy) == opt_string_view_ref(&options.proxy)
                },
                Err(e) => {
                    &&& vc is None
                    &&& options.http_version matches Some(hv) && e matches
                        AvanteCurlError::InvalidConfig(msg) && msg@ == "Unsupported HTTP version: "@
                        + hv@
                },
            }
        }),
{
    let http_version = match &options.http_version {
        None => HttpVersionChoice::Automatic,
        Some(hv) => {
            if *hv == "1.0".to_owned() || *hv == "1.1".to_owned() {
                HttpVersionChoice::Http1Only
            } else if *hv == "2".to_owned() {
                HttpVersionChoice::Http2PriorKnowledge
            } else {
                return Err(
                    AvanteCurlError::InvalidConfig(
                        "Unsupported HTTP version: ".to_owned().concat(hv.as_str()),
                    ),
                );
            }
        },
    };
    let timeout_secs = match options.timeout {
        Some(t) => t,
        None => 60,
    };
    let redirect = match options.follow_redirects {
        Some(true) => RedirectPolicy::Limited(10),
        Some(false) => RedirectPolicy::NoFollow,
        None => RedirectPolicy::Automatic,
    };
    let accept_invalid_certs = match options.insecure {
        Some(true) => true,
        _ => false,
    };
    let compression = match options.compressed {
        Some(z) => z,
        None => true,
    };
    let proxy = crate::record::clone_opt_string(&options.proxy);
    Ok(
        ClientConfig {
            timeout_secs,
            redirect,
            accept_invalid_certs,
            compression,
            proxy,
            http_version,
        },
    )
}

/// The position of the first occurrence of `c` in `s`.
pub open spec fn first_index_of(s: Seq<char>, c: char) -> Option<int>
    decreases s.len(),
{
    if s.len() == 0 {
        None
    } else if s[0] == c {
        Some(0int)
    } else {
        match first_index_of(s.drop_first(), c) {
            Some(k) => Some(k + 1),
            None => None,
        }
    }
}

/// `first_index_of` finds the position whose earlier characters all differ
/// from `c`.
pub proof fn lemma_first_index_found(s: Seq<char>, c: char, i: int)
    requires
        0 <= i < s.len(),
        s[i] == c,
        forall|j: int| 0 <= j < i ==> s[j] != c,
    ensures
        first_index_of(s, c) == Some(i),
    decreases i,
{
    if i > 0 {
        assert(s.drop_first()[i - 1] == c);
        assert(forall|j: int| 0 <= j < i - 1 ==> s.drop_first()[j] == s[j + 1]);
        lemma_first_index_found(s.drop_first(), c, i - 1);
    }
}

/// `first_index_of` finds nothing when `c` does not occur.
pub proof fn lemma_first_index_none(s: Seq<char>, c: char)
    requires
        forall|j: int| 0 <= j < s.len() ==> s[j] != c,
    ensures
        first_index_of(s, c) is None,
    decreases s.len(),
{
    if s.len() > 0 {
        assert(forall|j: int| 0 <= j < s.drop_first().len() ==> s.drop_first()[j] == s[j + 1]);
        lemma_first_index_none(s.drop_first(), c);
    }
}

/// The position of the first colon in a character vector.
fn first_colon(v: &Vec<char>) -> (r: Option<usize>)
    ensures
        match r {
            Some(i) => i < v@.len() && v@[i as int] == ':' && first_index_of(v@, ':') == Some(
                i as int,
            ),
            None => first_index_of(v@, ':') is None,
        },
{
    let mut i: usize = 0;
    while i < v.len()
        invariant
            i <= v@.len(),
            forall|j: int| 0 <= j < i ==> v@[j] != ':',
        decreases v@.len() - i,
    {
        if v[i] == ':' {
            proof {
                lemma_first_index_found(v@, ':', i as int);
            }
            return Some(i);
        }
        i = i + 1;
    }
    proof {
        lemma_first_index_none(v@, ':');
    }
    None
}

/// The header a `-H` argument carries: the text split at its first colon,
/// both sides trimmed, accepted only when both are non-empty.
pub open spec fn header_of_arg(h: Seq<char>) -> Option<(Seq<char>, Seq<char>)> {
    match first_index_of(h, ':') {
        Some(k) => {
            let name = trim_spec(h.take(k));
            let value = trim_spec(h.skip(k + 1));
            if name.len() > 0 && value.len() > 0 {
                Some((name, value))
            } else {
                None
            }
        },
        None => None,
    }
}

/// One step of the raw-argument scan over a flag and the value after it.
pub open spec fn raw_step(
    acc: (Seq<(Seq<char>, Seq<char>)>, Option<Seq<char>>),
    flag: Seq<char>,
    value: Seq<char>,
) -> (Seq<(Seq<char>, Seq<char>)>, Option<Seq<char>>) {
    if flag == "-H"@ || flag == "--header"@ {
        match header_of_arg(value) {
            Some(p) => (acc.0.push(p), acc.1),
            None => acc,
        }
    } else if flag == "-d"@ || flag == "--data"@ {
        (acc.0, Some(value))
    } else {
        acc
    }
}

/// The raw-argument scan from position `i`: every position is examined as
/// a flag whose value is the next argument, and the scan stops at the last
/// position.
pub open spec fn scan_raw_fold(
    args: Seq<Seq<char>>,
    i: nat,
    acc: (Seq<(Seq<char>, Seq<char>)>, Option<Seq<char>>),
) -> (Seq<(Seq<char>, Seq<char>)>, Option<Seq<char>>)
    decreases args.len() - i,
{
    if i + 1 >= args.len() {
        acc
    } else {
        scan_raw_fold(args, i + 1, raw_step(acc, args[i as int], args[i as int + 1]))
    }
}

/// What the raw-argument scan extracts from a passthrough list.
pub open spec fn spec_scan_raw(args: Seq<Seq<char>>) -> (
    Seq<(Seq<char>, Seq<char>)>,
    Option<Seq<char>>,
) {
    scan_raw_fold(args, 0, (Seq::<(Seq<char>, Seq<char>)>::empty(), None::<Seq<char>>))
}

/// What a raw curl-style passthrough list contributes to a request.
#[derive(Debug)]
pub struct RawArgs {
    /// Headers from `-H`/`--header` arguments, in order.
    pub headers: Vec<(String, String)>,
    /// The body from the last `-d`/`--data` argument, if any.
    pub body: Option<String>,
}

/// Scan a raw passthrough list for `-H`/`--header` and `-d`/`--data`
/// pairs; all other flags are ignored.
pub fn scan_raw_args(args: &Vec<String>) -> (r: RawArgs)
    ensures
        ({
            let sc = spec_scan_raw(args@.map_values(|s: String| s@));
            &&& header_seq(r.headers) == sc.0
            &&& opt_string_view(r.body) == sc.1
        }),
{
    let ghost argsv = args@.map_values(|s: String| s@);
    let ghost init_acc = (Seq::<(Seq<char>, Seq<char>)>::empty(), None::<Seq<char>>);
    let flag_h: String = "-H".to_owned();
    let flag_header: String = "--header".to_owned();
    let flag_d: String = "-d".to_owned();
    let flag_data: String = "--data".to_owned();
    let mut headers: Vec<(String, String)> = Vec::new();
    let mut body: Option<String> = None;
    let mut i: usize = 0;
    proof {
        assert(header_seq(headers) =~= init_acc.0);
    }
    while args.len() - i > 1
        invariant
            i <= argsv.len(),
            args@.map_values(|s: String| s@) == argsv,
            flag_h@ == "-H"@,
            flag_header@ == "--header"@,
            flag_d@ == "-d"@,
            flag_data@ == "--data"@,
            scan_raw_fold(argsv, 0, init_acc) == scan_raw_fold(
                argsv,
                i as nat,
                (header_seq(headers), opt_string_view(body)),
            ),
        decreases argsv.len() - i,
    {
        let ghost acc0 = (header_seq(headers), opt_string_view(body));
        proof {
            assert(argsv[i as int] == args@[i as int]@);
            assert(argsv[i as int + 1] == args@[i as int + 1]@);
        }
        if args[i] == flag_h || args[i] == flag_header {
            let hchars = chars_of(args[i + 1].as_str());
            match first_colon(&hchars) {
                Some(k) => {
                    let name_part = slice_of(&hchars, 0, k);
                    let value_part = slice_of(&hchars, k + 1, hchars.len());
                    proof {
                        assert(name_part@ =~= hchars@.take(k as int));
                        assert(value_part@ =~= hchars@.skip(k as int + 1));
                    }
                    let name = trim_chars(&name_part);
                    let value = trim_chars(&value_part);
                    if name.len() > 0 && value.len() > 0 {
                        let ghost h0 = header_seq(headers);
                        headers.push((string_from_chars(name), string_from_chars(value)));
                        proof {
                            assert(header_seq(headers) =~= h0.push(
                                (trim_spec(hchars@.take(k as int)), trim_spec(
                                    hchars@.skip(k as int + 1),
                                )),
                            ));
                        }
                    }
                },
                None => {},
            }
        } else if args[i] == flag_d || args[i] == flag_data {
            body = Some(args[i + 1].clone());
        }
        proof {
            assert((header_seq(headers), opt_string_view(body)) == raw_step(
                acc0,
                argsv[i as int],
                argsv[i as int + 1],
            ));
            assert(scan_raw_fold(argsv, i as nat, acc0) == scan_raw_fold(
                argsv,
                (i + 1) as nat,
                (header_seq(headers), opt_string_view(body)),
            ));
        }
        i = i + 1;
    }
    proof {
        assert(scan_raw_fold(
            argsv,
            i as nat,
            (header_seq(headers), opt_string_view(body)),
        ) == (header_seq(headers), opt_string_view(body)));
    }
    RawArgs { headers, body }
}

} // verus!
