//! URLs and their parts.

use vstd::prelude::*;
use vstd::string::*;
use crate::engine::{add_text_function, add_value_method};
use crate::model::{CelKey, CelKeyView, CelValue, CelView, FunctionError};
use crate::strings::texts_view;
use crate::text::{
    chars_of, concat2, concat3, decimal_string, decimal_text, same_text, slice_chars, text_of,
};

verus! {

/// A parsed URL, as plain values.
#[derive(Debug, PartialEq, Eq)]
pub struct KubeUrl {
    /// The URL in full, as the parser wrote it back.
    pub href: String,
    pub scheme: String,
    /// The host, with brackets round an IPv6 address; nothing where the URL has no host.
    pub host: Option<String>,
    pub port: Option<u16>,
    pub path: String,
    /// The query's pairs, decoded, in the order they were written.
    pub query: Vec<(String, String)>,
}


/// The mathematical value of a [`KubeUrl`].
pub struct UrlView {
    pub href: Seq<char>,
    pub scheme: Seq<char>,
    pub host: Option<Seq<char>>,
    pub port: Option<u16>,
    pub path: Seq<char>,
    pub query: Seq<(Seq<char>, Seq<char>)>,
}

/// The characters of each pair of `pairs`.
pub open spec fn pairs_view(pairs: Seq<(String, String)>) -> Seq<(Seq<char>, Seq<char>)> {
    Seq::new(pairs.len(), |i: int| (pairs[i].0@, pairs[i].1@))
}

impl View for KubeUrl {
    type V = UrlView;

    open spec fn view(&self) -> UrlView {
        UrlView {
            href: self.href@,
            scheme: self.scheme@,
            host: crate::text::text_view(self.host),
            port: self.port,
            path: self.path@,
            query: pairs_view(self.query@),
        }
    }
}

impl Clone for KubeUrl {
    fn clone(&self) -> (r: Self)
        ensures
            r@ == self@,
    {
        let mut query: Vec<(String, String)> = Vec::new();
        let mut i: usize = 0;
        while i < self.query.len()
            invariant
                i <= self.query.len(),
                query.len() == i,
                forall|j: int|
                    0 <= j < i ==> (#[trigger] query[j]).0@ == self.query[j].0@ && query[j].1@
                        == self.query[j].1@,
            decreases self.query.len() - i,
        {
            let key = self.query[i].0.clone();
            let value = self.query[i].1.clone();
            query.push((key, value));
            i += 1;
        }
        assert(pairs_view(query@) =~= pairs_view(self.query@));
        KubeUrl {
            href: self.href.clone(),
            scheme: self.scheme.clone(),
            host: crate::text::clone_text(&self.host),
            port: self.port,
            path: self.path.clone(),
            query,
        }
    }
}

impl cel::objects::Opaque for KubeUrl {
    /// The name by which the engine knows values of this kind.
    fn runtime_type_name(&self) -> (r: &str)
        ensures
            r@ == "kubernetes.URL"@,
    {
        "kubernetes.URL"
    }
}


/// The URL that `Url::parse` reads from `text`, as plain values. Nothing where `text` is
/// no URL.
pub uninterp spec fn url_of(text: Seq<char>) -> Option<UrlView>;

/// `Url::parse`, its outcome as plain values: `as_str`, `scheme`, `host_str`, `port` and
/// `path` of the URL, and the pairs of `query_pairs`, collected. On failure, `Display` of
/// the error.
///
/// The outcome is a function of the text alone.
#[verifier::external_body]
fn parse_text(text: &str) -> (r: Result<KubeUrl, String>)
    ensures
        match r {
            Ok(u) => url_of(text@) == Some(u@),
            Err(_) => url_of(text@) is None,
        },
{
    let u = url::Url::parse(text).map_err(|e| e.to_string())?;
    Ok(KubeUrl {
        href: u.as_str().to_string(),
        scheme: u.scheme().to_string(),
        host: u.host_str().map(|h| h.to_string()),
        port: u.port(),
        path: u.path().to_string(),
        query: u.query_pairs().map(|(k, v)| (k.to_string(), v.to_string())).collect(),
    })
}

/// The text that is parsed for `s`: `s` itself, or, for a path that starts with `/`, the
/// path on the host `localhost`.
pub open spec fn url_text(s: Seq<char>) -> Seq<char> {
    if s.len() > 0 && s[0] == '/' {
        "http://localhost"@ + s
    } else {
        s
    }
}

/// Reads a URL: an absolute URI, or an absolute path.
pub fn validate_and_parse(s: &str) -> (r: Result<KubeUrl, String>)
    ensures
        match r {
            Ok(u) => url_of(url_text(s@)) == Some(u@),
            Err(_) => url_of(url_text(s@)) is None,
        },
{
    let chars = chars_of(s);
    let parsed = if chars.len() > 0 && chars[0] == '/' {
        let full = concat2("http://localhost", s);
        parse_text(full.as_str())
    } else {
        parse_text(s)
    };
    match parsed {
        Ok(u) => Ok(u),
        Err(e) => Err(concat2("invalid URL: ", e.as_str())),
    }
}

/// `url(<string>)`: the URL that the string writes.
pub fn parse_url(s: &str) -> (r: Result<CelValue, FunctionError>)
    ensures
        match r {
            Ok(v) => match v@ {
                CelView::Url(u) => url_of(url_text(s@)) == Some(u),
                _ => false,
            },
            Err(e) => url_of(url_text(s@)) is None && e.function@ == "url"@,
        },
{
    match validate_and_parse(s) {
        Ok(u) => Ok(CelValue::Url(u)),
        Err(e) => Err(FunctionError::new("url", e.as_str())),
    }
}

/// `isURL(<string>)`: whether the string writes a URL.
pub fn is_url(s: &str) -> (r: Result<CelValue, FunctionError>)
    ensures
        r matches Ok(v) && v@ == CelView::Bool(url_of(url_text(s@)) is Some),
{
    Ok(CelValue::Bool(validate_and_parse(s).is_ok()))
}

/// The URL that `val` holds.
pub fn extract_url(val: &CelValue) -> (r: Result<&KubeUrl, FunctionError>)
    ensures
        match r {
            Ok(u) => val@ == CelView::Url(u@),
            Err(e) => !(val@ is Url) && e.says("url"@, "expected URL type"@),
        },
{
    match val {
        CelValue::Url(u) => Ok(u),
        _ => Err(FunctionError::new("url", "expected URL type")),
    }
}

/// The scheme of a URL as `getScheme` gives it: empty for `http` on `localhost`, which
/// is what an absolute path is parsed as.
pub open spec fn scheme_of(u: UrlView) -> Seq<char> {
    if u.scheme == "http"@ && u.host == Some("localhost"@) {
        Seq::empty()
    } else {
        u.scheme
    }
}

/// The host of a URL as `getHost` gives it: the host, then a colon and the port where the
/// URL names one.
pub open spec fn host_of(u: UrlView) -> Seq<char> {
    let host = match u.host {
        Some(h) => h,
        None => Seq::empty(),
    };
    match u.port {
        Some(port) => host + ":"@ + decimal_text(port as nat),
        None => host,
    }
}

/// The host name of a URL as `getHostname` gives it: the host without the brackets of an
/// IPv6 address.
pub open spec fn hostname_of(u: UrlView) -> Seq<char> {
    let host = match u.host {
        Some(h) => h,
        None => Seq::empty(),
    };
    if host.len() >= 2 && host[0] == '[' && host.last() == ']' {
        host.subrange(1, host.len() - 1)
    } else {
        host
    }
}

/// `<URL>.getScheme()`.
pub fn get_scheme(this: &CelValue) -> (r: Result<CelValue, FunctionError>)
    ensures
        match r {
            Ok(v) => match this@ {
                CelView::Url(u) => v@ == CelView::String(scheme_of(u)),
                _ => false,
            },
            Err(e) => !(this@ is Url) && e.says("url"@, "expected URL type"@),
        },
{
    let u = extract_url(this)?;
    let local = match &u.host {
        Some(h) => same_text(h.as_str(), "localhost"),
        None => false,
    };
    if same_text(u.scheme.as_str(), "http") && local {
        Ok(CelValue::String(String::new()))
    } else {
        Ok(CelValue::String(u.scheme.clone()))
    }
}

/// `<URL>.getHost()`: the host, with its port and with the brackets of an IPv6 address.
pub fn get_host(this: &CelValue) -> (r: Result<CelValue, FunctionError>)
    ensures
        match r {
            Ok(v) => match this@ {
                CelView::Url(u) => v@ == CelView::String(host_of(u)),
                _ => false,
            },
            Err(e) => !(this@ is Url) && e.says("url"@, "expected URL type"@),
        },
{
    let u = extract_url(this)?;
    let host = match &u.host {
        Some(h) => h.clone(),
        None => String::new(),
    };
    match u.port {
        Some(port) => {
            let digits = decimal_string(port as u128);
            Ok(CelValue::String(concat3(host.as_str(), ":", digits.as_str())))
        },
        None => Ok(CelValue::String(host)),
    }
}

/// `<URL>.getHostname()`: the host, without its port and without the brackets of an IPv6
/// address.
pub fn get_hostname(this: &CelValue) -> (r: Result<CelValue, FunctionError>)
    ensures
        match r {
            Ok(v) => match this@ {
                CelView::Url(u) => v@ == CelView::String(hostname_of(u)),
                _ => false,
            },
            Err(e) => !(this@ is Url) && e.says("url"@, "expected URL type"@),
        },
{
    let u = extract_url(this)?;
    let host = match &u.host {
        Some(h) => chars_of(h.as_str()),
        None => Vec::new(),
    };
    if host.len() >= 2 && host[0] == '[' && host[host.len() - 1] == ']' {
        let inner = slice_chars(&host, 1, host.len() - 1);
        Ok(CelValue::String(text_of(&inner)))
    } else {
        Ok(CelValue::String(text_of(&host)))
    }
}

/// `<URL>.getPort()`: the port in decimal; the empty string where the URL names none.
pub fn get_port(this: &CelValue) -> (r: Result<CelValue, FunctionError>)
    ensures
        match r {
            Ok(v) => match this@ {
                CelView::Url(u) => v@ == CelView::String(
                    match u.port {
                        Some(port) => decimal_text(port as nat),
                        None => Seq::empty(),
                    },
                ),
                _ => false,
            },
            Err(e) => !(this@ is Url) && e.says("url"@, "expected URL type"@),
        },
{
    let u = extract_url(this)?;
    match u.port {
        Some(port) => Ok(CelValue::String(decimal_string(port as u128))),
        None => Ok(CelValue::String(String::new())),
    }
}

/// `<URL>.getEscapedPath()`: the path, percent-encoded as the URL holds it.
pub fn get_escaped_path(this: &CelValue) -> (r: Result<CelValue, FunctionError>)
    ensures
        match r {
            Ok(v) => match this@ {
                CelView::Url(u) => v@ == CelView::String(u.path),
                _ => false,
            },
            Err(e) => !(this@ is Url) && e.says("url"@, "expected URL type"@),
        },
{
    let u = extract_url(this)?;
    Ok(CelValue::String(u.path.clone()))
}

/// The values of the first `count` pairs of `pairs` whose key is `key`, in order.
pub open spec fn values_of(pairs: Seq<(Seq<char>, Seq<char>)>, key: Seq<char>, count: nat) -> Seq<
    Seq<char>,
>
    decreases count,
{
    if count == 0 || count > pairs.len() {
        Seq::empty()
    } else if pairs[count - 1].0 == key {
        values_of(pairs, key, (count - 1) as nat).push(pairs[count - 1].1)
    } else {
        values_of(pairs, key, (count - 1) as nat)
    }
}

/// The keys of the first `count` pairs of `pairs`, each once, in the order in which they
/// first occur.
pub open spec fn keys_of(pairs: Seq<(Seq<char>, Seq<char>)>, count: nat) -> Seq<Seq<char>>
    decreases count,
{
    if count == 0 || count > pairs.len() {
        Seq::empty()
    } else {
        let before = keys_of(pairs, (count - 1) as nat);
        if before.contains(pairs[count - 1].0) {
            before
        } else {
            before.push(pairs[count - 1].0)
        }
    }
}

/// What `getQuery` gives for the pairs `pairs`: each key once, in the order of its first
/// occurrence, with the list of its values in the order they were written.
pub open spec fn query_view(pairs: Seq<(Seq<char>, Seq<char>)>) -> CelView {
    let keys = keys_of(pairs, pairs.len());
    CelView::Mapping(
        Seq::new(
            keys.len(),
            |i: int|
                (
                    CelKeyView::String(keys[i]),
                    crate::strings::text_list(values_of(pairs, keys[i], pairs.len())),
                ),
        ),
    )
}

fn holds_text(keys: &Vec<String>, key: &str) -> (r: bool)
    ensures
        r == texts_view(keys@).contains(key@),
{
    let mut i: usize = 0;
    while i < keys.len()
        invariant
            i <= keys.len(),
            forall|j: int| 0 <= j < i ==> keys[j]@ != key@,
        decreases keys.len() - i,
    {
        if same_text(keys[i].as_str(), key) {
            assert(texts_view(keys@)[i as int] == key@);
            return true;
        }
        i += 1;
    }
    assert forall|j: int| 0 <= j < texts_view(keys@).len() implies texts_view(keys@)[j]
        != key@ by {}
    false
}

/// `<URL>.getQuery()`: the parameters of the query, each key with the list of its values
/// in the order they were written. The keys come in the order in which they first occur.
pub fn get_query(this: &CelValue) -> (r: Result<CelValue, FunctionError>)
    ensures
        match r {
            Ok(v) => match this@ {
                CelView::Url(u) => v@ == query_view(u.query),
                _ => false,
            },
            Err(e) => !(this@ is Url) && e.says("url"@, "expected URL type"@),
        },
{
    let u = extract_url(this)?;
    let ghost pairs = pairs_view(u.query@);
    let mut keys: Vec<String> = Vec::new();
    let mut i: usize = 0;
    assert(texts_view(keys@) =~= keys_of(pairs, 0));
    while i < u.query.len()
        invariant
            i <= u.query.len(),
            pairs == pairs_view(u.query@),
            texts_view(keys@) == keys_of(pairs, i as nat),
        decreases u.query.len() - i,
    {
        let ghost before = texts_view(keys@);
        assert(pairs[i as int].0 == u.query[i as int].0@);
        if !holds_text(&keys, u.query[i].0.as_str()) {
            keys.push(u.query[i].0.clone());
            assert(texts_view(keys@) =~= before.push(pairs[i as int].0));
        }
        i += 1;
    }
    let ghost names = keys_of(pairs, pairs.len());
    let mut entries: Vec<(CelKey, CelValue)> = Vec::new();
    let mut k: usize = 0;
    while k < keys.len()
        invariant
            k <= keys.len(),
            pairs == pairs_view(u.query@),
            names == keys_of(pairs, pairs.len()),
            texts_view(keys@) == names,
            entries.len() == k,
            forall|j: int|
                0 <= j < k ==> (#[trigger] entries[j]).0@ == CelKeyView::String(names[j])
                    && entries[j].1@ == crate::strings::text_list(
                    values_of(pairs, names[j], pairs.len()),
                ),
        decreases keys.len() - k,
    {
        assert(names[k as int] == keys[k as int]@);
        let mut found: Vec<String> = Vec::new();
        let mut j: usize = 0;
        assert(texts_view(found@) =~= values_of(pairs, keys[k as int]@, 0));
        while j < u.query.len()
            invariant
                j <= u.query.len(),
                k < keys.len(),
                pairs == pairs_view(u.query@),
                texts_view(found@) == values_of(pairs, keys[k as int]@, j as nat),
            decreases u.query.len() - j,
        {
            let ghost before = texts_view(found@);
            assert(pairs[j as int] == (u.query[j as int].0@, u.query[j as int].1@));
            if same_text(u.query[j].0.as_str(), keys[k].as_str()) {
                found.push(u.query[j].1.clone());
                assert(texts_view(found@) =~= before.push(pairs[j as int].1));
            }
            j += 1;
        }
        let list = crate::strings::text_list_of(found);
        entries.push((CelKey::String(keys[k].clone()), list));
        k += 1;
    }
    proof {
        crate::model::lemma_map_view(entries);
        assert(CelValue::Mapping(entries)@.entries() =~= query_view(pairs).entries());
    }
    Ok(CelValue::Mapping(entries))
}

/// The names of the functions of URLs.
pub open spec fn names() -> Set<Seq<char>> {
    set![
        "url"@,
        "isURL"@,
        "getScheme"@,
        "getHost"@,
        "getHostname"@,
        "getPort"@,
        "getEscapedPath"@,
        "getQuery"@,
    ]
}

/// Adds the functions of URLs.
pub fn register(ctx: &mut cel::Context<'_>)
    ensures
        crate::engine::functions_added(*old(ctx), *final(ctx), names()),
{
    add_text_function(ctx, "url", parse_url);
    add_text_function(ctx, "isURL", is_url);
    add_value_method(ctx, "getScheme", get_scheme);
    add_value_method(ctx, "getHost", get_host);
    add_value_method(ctx, "getHostname", get_hostname);
    add_value_method(ctx, "getPort", get_port);
    add_value_method(ctx, "getEscapedPath", get_escaped_path);
    add_value_method(ctx, "getQuery", get_query);
    assert(crate::engine::is_root(*old(ctx)) ==> crate::engine::function_names(*ctx)
        =~= crate::engine::function_names(*old(ctx)).union(names()));
}

} // verus!
