use vstd::prelude::*;

use crate::config::UpstreamConfig;
use crate::detectors::prompt::strings_view;
use crate::errors::ProxyError;
use crate::proxy::handler::{headers_view, lemma_lower_names, name_in, name_in_list};
use crate::text::{all_ws, chars_of, is_blank, push_all, str_starts_with, string_from_chars, to_owned_string};

verus! {

/// Client headers that are never sent upstream: hop-level ones, the
/// client's own credentials and cookies, and what the upstream call sets
/// itself.
pub open spec fn dropped_request_headers() -> Seq<Seq<char>> {
    seq![
        "host"@,
        "content-length"@,
        "connection"@,
        "authorization"@,
        "cookie"@,
        "accept-encoding"@,
        "proxy-authorization"@,
        "proxy-connection"@,
    ]
}

/// The client headers that are sent upstream, in order.
pub open spec fn forwarded_headers(h: Seq<(Seq<char>, Seq<char>)>) -> Seq<(Seq<char>, Seq<char>)>
    decreases h.len(),
{
    if h.len() == 0 {
        Seq::empty()
    } else {
        let rest = forwarded_headers(h.drop_last());
        if name_in(h.last().0, dropped_request_headers()) {
            rest
        } else {
            rest.push(h.last())
        }
    }
}

/// The text without its trailing slashes.
pub open spec fn trim_slashes(s: Seq<char>) -> Seq<char>
    decreases s.len(),
{
    if s.len() > 0 && s.last() == '/' {
        trim_slashes(s.drop_last())
    } else {
        s
    }
}

/// The upstream URL of a request: the base URL, then the path and query
/// with a leading slash.
pub open spec fn upstream_url(base: Seq<char>, path_and_query: Seq<char>) -> Seq<char> {
    if path_and_query.len() > 0 && path_and_query[0] == '/' {
        base + path_and_query
    } else {
        base + "/"@ + path_and_query
    }
}

/// Where and how a request goes upstream.
pub struct ForwardPlan {
    pub url: String,
    pub headers: Vec<(String, String)>,
    /// The upstream API key to send as a bearer token, if any.
    pub bearer: Option<String>,
}

/// Sends requests on to the configured upstream.
pub struct UpstreamClient {
    pub base_url: String,
    pub api_key_env: String,
    pub require_api_key: bool,
    pub timeout_secs: u64,
}

fn trim_end_slashes(s: &str) -> (r: String)
    ensures
        r@ == trim_slashes(s@),
{
    let cs = chars_of(s);
    let mut n = cs.len();
    assert(s@.subrange(0, n as int) =~= s@);
    while n > 0 && cs[n - 1] == '/'
        invariant
            n <= cs.len(),
            cs@ == s@,
            trim_slashes(s@) == trim_slashes(s@.subrange(0, n as int)),
        decreases n,
    {
        assert(s@.subrange(0, n - 1) =~= s@.subrange(0, n as int).drop_last());
        n -= 1;
    }
    let r = string_from_chars(&cs, 0, n);
    assert(trim_slashes(r@) == r@);
    r
}

fn is_dropped_request_header(name: &str) -> (r: bool)
    ensures
        r == name_in(name@, dropped_request_headers()),
{
    let mut v: Vec<String> = Vec::new();
    v.push(to_owned_string("host"));
    v.push(to_owned_string("content-length"));
    v.push(to_owned_string("connection"));
    v.push(to_owned_string("authorization"));
    v.push(to_owned_string("cookie"));
    v.push(to_owned_string("accept-encoding"));
    v.push(to_owned_string("proxy-authorization"));
    v.push(to_owned_string("proxy-connection"));
    proof {
        reveal_strlit("host");
        reveal_strlit("content-length");
        reveal_strlit("connection");
        reveal_strlit("authorization");
        reveal_strlit("cookie");
        reveal_strlit("accept-encoding");
        reveal_strlit("proxy-authorization");
        reveal_strlit("proxy-connection");
        assert(strings_view(v@) =~= dropped_request_headers());
        lemma_lower_names(dropped_request_headers());
    }
    name_in_list(name, v, Ghost(dropped_request_headers()))
}

/// The client headers that go upstream.
pub fn copy_headers(headers: &Vec<(String, String)>) -> (r: Vec<(String, String)>)
    ensures
        headers_view(r@) == forwarded_headers(headers_view(headers@)),
{
    let ghost hv = headers_view(headers@);
    let mut out: Vec<(String, String)> = Vec::new();
    let mut i: usize = 0;
    assert(headers_view(out@) =~= forwarded_headers(hv.take(0)));
    while i < headers.len()
        invariant
            i <= headers.len(),
            hv == headers_view(headers@),
            headers_view(out@) == forwarded_headers(hv.take(i as int)),
        decreases headers.len() - i,
    {
        if !is_dropped_request_header(headers[i].0.as_str()) {
            out.push((to_owned_string(headers[i].0.as_str()), to_owned_string(headers[i].1.as_str())));
        }
        proof {
            assert(hv.take(i + 1).drop_last() =~= hv.take(i as int));
            assert(hv.take(i + 1).last() == hv[i as int]);
            assert(headers_view(out@) =~= forwarded_headers(hv.take(i + 1)));
        }
        i += 1;
    }
    assert(hv.take(headers.len() as int) =~= hv);
    out
}

impl UpstreamClient {
    pub fn new(config: &UpstreamConfig, timeout_secs: u64) -> (r: UpstreamClient)
        ensures
            r.base_url@ == trim_slashes(config.url@),
            r.api_key_env@ == config.api_key_env@,
            r.require_api_key == config.require_api_key,
            r.timeout_secs == timeout_secs,
    {
        UpstreamClient {
            base_url: trim_end_slashes(config.url.as_str()),
            api_key_env: to_owned_string(config.api_key_env.as_str()),
            require_api_key: config.require_api_key,
            timeout_secs,
        }
    }

    /// How a request goes upstream: its URL, the client headers that are
    /// kept, and the upstream key as bearer token. `env_key` is the value of
    /// the environment variable the configuration names, if it is set. A
    /// blank or missing key fails when one is required.
    pub fn prepare_forward(
        &self,
        path_and_query: &str,
        headers: &Vec<(String, String)>,
        env_key: Option<String>,
    ) -> (r: Result<ForwardPlan, ProxyError>)
        ensures
            ({
                let usable = env_key matches Some(k) && !all_ws(k@);
                if !usable && self.require_api_key {
                    r matches Err(ProxyError::MissingUpstreamApiKey(n)) && n@ == self.api_key_env@
                } else {
                    r matches Ok(p) && p.url@ == upstream_url(self.base_url@, path_and_query@)
                        && headers_view(p.headers@) == forwarded_headers(headers_view(headers@))
                        && match p.bearer {
                        Some(b) => usable && (env_key matches Some(k) && b@ == k@),
                        None => !usable,
                    }
                }
            }),
    {
        let bearer = match env_key {
            Some(k) => if !is_blank(k.as_str()) {
                Some(k)
            } else {
                None
            },
            None => None,
        };
        if bearer.is_none() && self.require_api_key {
            return Err(ProxyError::MissingUpstreamApiKey(to_owned_string(self.api_key_env.as_str())));
        }
        proof {
            reveal_strlit("/");
        }
        let mut url = to_owned_string(self.base_url.as_str());
        let slash = str_starts_with(path_and_query, "/");
        assert(slash == (path_and_query@.len() > 0 && path_and_query@[0] == '/')) by {
            assert("/"@ =~= seq!['/']);
            if path_and_query@.len() > 0 {
                assert(path_and_query@.subrange(0, 1) =~= seq![path_and_query@[0]]);
                if path_and_query@.subrange(0, 1) == "/"@ {
                    assert(path_and_query@.subrange(0, 1)[0] == path_and_query@[0]);
                }
            }
        }
        if !slash {
            push_all(&mut url, "/");
        }
        push_all(&mut url, path_and_query);
        Ok(ForwardPlan { url, headers: copy_headers(headers), bearer })
    }
}

/// The client's own credentials never go upstream: no forwarded header is
/// an `Authorization` header, whatever its case.
pub proof fn client_authorization_is_stripped(h: Seq<(Seq<char>, Seq<char>)>)
    ensures
        forall|k: int|
            0 <= k < forwarded_headers(h).len() ==> !name_in(
                #[trigger] forwarded_headers(h)[k].0,
                seq!["authorization"@],
            ),
    decreases h.len(),
{
    if h.len() > 0 {
        client_authorization_is_stripped(h.drop_last());
        let rest = forwarded_headers(h.drop_last());
        let f = forwarded_headers(h);
        assert forall|k: int| 0 <= k < f.len() implies !name_in(#[trigger] f[k].0, seq!["authorization"@]) by {
            if k < rest.len() {
                assert(f[k] == rest[k]);
            } else {
                assert(dropped_request_headers()[3] == "authorization"@);
            }
        }
    }
}

} // verus!
