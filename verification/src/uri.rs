//! Request targets: the parts of a URI that the proxy reads, the absolute
//! form of a target, and hosts as users expect to see them.

use vstd::prelude::*;
use vstd::string::*;

use crate::text;

verus! {

/// The parts of a URI.
#[derive(Debug)]
pub struct UriParts {
    /// The whole URI.
    pub text: String,
    pub scheme: Option<String>,
    pub authority: Option<String>,
    pub host: Option<String>,
    pub port: Option<u16>,
    pub path: String,
    pub query: Option<String>,
    pub path_and_query: Option<String>,
}

/// The parts of a URI, as texts.
pub struct UriView {
    pub text: Seq<char>,
    pub scheme: Option<Seq<char>>,
    pub authority: Option<Seq<char>>,
    pub host: Option<Seq<char>>,
    pub port: Option<u16>,
    pub path: Seq<char>,
    pub query: Option<Seq<char>>,
    pub path_and_query: Option<Seq<char>>,
}

/// The view of an optional string.
pub open spec fn optional_text(s: Option<String>) -> Option<Seq<char>> {
    match s {
        Some(s) => Some(s@),
        None => None,
    }
}

impl View for UriParts {
    type V = UriView;

    open spec fn view(&self) -> UriView {
        UriView {
            text: self.text@,
            scheme: optional_text(self.scheme),
            authority: optional_text(self.authority),
            host: optional_text(self.host),
            port: self.port,
            path: self.path@,
            query: optional_text(self.query),
            path_and_query: optional_text(self.path_and_query),
        }
    }
}

/// The view of what parsing returned.
pub open spec fn parse_view(r: Result<UriParts, String>) -> Result<UriView, Seq<char>> {
    match r {
        Ok(uri) => Ok(uri@),
        Err(e) => Err(e@),
    }
}

/// The URI that a text is, or what is said of a text that is none.
pub uninterp spec fn parsed_uri(text: Seq<char>) -> Result<UriView, Seq<char>>;

/// `Uri::from_str` of the `http` crate, the URI taken apart by its accessors.
/// Which texts are URIs, and how they divide into parts, is left to the
/// crate.
#[verifier::external_body]
fn parse_uri(text: &str) -> (r: Result<UriParts, String>)
    ensures
        parse_view(r) == parsed_uri(text@),
{
    let uri = text.parse::<http::Uri>().map_err(|e| e.to_string())?;
    Ok(UriParts {
        text: uri.to_string(),
        scheme: uri.scheme_str().map(|s| s.to_string()),
        authority: uri.authority().map(|a| a.as_str().to_string()),
        host: uri.host().map(|h| h.to_string()),
        port: uri.port_u16(),
        path: uri.path().to_string(),
        query: uri.query().map(|q| q.to_string()),
        path_and_query: uri.path_and_query().map(|p| p.as_str().to_string()),
    })
}

/// The authority of a target: its own, or else that of the `CONNECT` request
/// that it came through.
pub open spec fn target_authority(
    uri: UriView,
    connect_authority: Option<Seq<char>>,
) -> Option<Seq<char>> {
    match uri.authority {
        Some(a) => Some(a),
        None => connect_authority,
    }
}

/// The absolute form of a target.
pub open spec fn absolute_text(uri: UriView, scheme: Seq<char>, authority: Seq<char>) -> Seq<char> {
    scheme + "://"@ + authority + (match uri.path_and_query {
        Some(p) => p,
        None => "/"@,
    })
}

/// What is said of a target that is none in its absolute form.
pub open spec fn in_assembling(r: Result<UriView, Seq<char>>) -> Result<UriView, Seq<char>> {
    match r {
        Ok(uri) => Ok(uri),
        Err(e) => Err("assembling absolute request URI: "@ + e),
    }
}

/// The absolute URI of a target: the target itself if it has a scheme, else
/// the URI in its absolute form. Without any authority there is none.
pub open spec fn absolute(
    uri: UriView,
    scheme: Seq<char>,
    connect_authority: Option<Seq<char>>,
) -> Result<UriView, Seq<char>> {
    if uri.scheme is Some {
        Ok(uri)
    } else {
        match target_authority(uri, connect_authority) {
            Some(authority) => in_assembling(parsed_uri(absolute_text(uri, scheme, authority))),
            None => Err("request has no authority and no CONNECT context"@),
        }
    }
}

/// What becomes of a target whose absolute form was parsed.
pub fn assembled(parsed: Result<UriParts, String>) -> (r: Result<UriParts, String>)
    ensures
        parse_view(r) == in_assembling(parse_view(parsed)),
{
    match parsed {
        Ok(uri) => Ok(uri),
        Err(e) => {
            let mut message = "assembling absolute request URI: ".to_owned();
            message.append(e.as_str());
            Err(message)
        },
    }
}

/// The absolute form of a target as text; nothing without an authority.
pub fn absolute_form(
    uri: &UriParts,
    scheme: &str,
    connect_authority: &Option<String>,
) -> (r: Option<String>)
    ensures
        optional_text(r) == (match target_authority(uri@, optional_text(*connect_authority)) {
            Some(authority) => Some(absolute_text(uri@, scheme@, authority)),
            None => None,
        }),
{
    let authority = match &uri.authority {
        Some(a) => a,
        None => match connect_authority {
            Some(a) => a,
            None => {
                return None;
            },
        },
    };
    let mut out = scheme.to_owned();
    out.append("://");
    out.append(authority.as_str());
    match &uri.path_and_query {
        Some(p) => out.append(p.as_str()),
        None => out.append("/"),
    }
    Some(out)
}

/// The absolute URI of a target.
pub fn absolute_uri(
    uri: UriParts,
    scheme: &str,
    connect_authority: &Option<String>,
) -> (r: Result<UriParts, String>)
    ensures
        parse_view(r) == absolute(uri@, scheme@, optional_text(*connect_authority)),
        uri.scheme is Some ==> r == Ok::<UriParts, String>(uri),
{
    if uri.scheme.is_some() {
        return Ok(uri);
    }
    match absolute_form(&uri, scheme, connect_authority) {
        Some(form) => assembled(parse_uri(form.as_str())),
        None => Err("request has no authority and no CONNECT context".to_owned()),
    }
}

/// Whether a port is the one that a scheme stands for by itself.
pub open spec fn is_default_port(scheme: Seq<char>, port: u16) -> bool {
    (scheme == "http"@ && port == 80) || (scheme == "https"@ && port == 443)
}

/// A host with its port.
pub open spec fn host_and_port(host: Seq<char>, port: u16) -> Seq<char> {
    host + ":"@ + text::decimal_of(port as nat)
}

/// A host as users expect to see it: with its port, unless that is the
/// default of the scheme.
pub open spec fn displayed_host(
    host: Seq<char>,
    port: Option<u16>,
    scheme: Seq<char>,
) -> Seq<char> {
    match port {
        Some(p) if !is_default_port(scheme, p) => host_and_port(host, p),
        _ => host,
    }
}

/// A host with its port.
pub fn with_port(host: &str, port: u16) -> (r: String)
    ensures
        r@ == host_and_port(host@, port),
{
    let mut out = host.to_owned();
    out.append(":");
    let numeral = text::decimal(port as u64);
    out.append(numeral.as_str());
    out
}

/// A host as users expect to see it. Keeps displayed URLs correct.
pub fn display_host(host: &str, port: Option<u16>, scheme: &str) -> (r: String)
    ensures
        r@ == displayed_host(host@, port, scheme@),
{
    match port {
        None => host.to_owned(),
        Some(p) => {
            if (p == 80 && text::same_text(scheme, "http")) || (p == 443 && text::same_text(
                scheme,
                "https",
            )) {
                host.to_owned()
            } else {
                with_port(host, p)
            }
        },
    }
}

/// The port that a target means.
pub open spec fn effective_port(port: Option<u16>, scheme: Seq<char>) -> Option<u16> {
    match port {
        Some(p) => Some(p),
        None => if scheme == "http"@ {
            Some(80)
        } else if scheme == "https"@ {
            Some(443)
        } else {
            None
        },
    }
}

/// A displayed host still tells the port: leaving out the default port
/// confuses no two targets of the same host.
pub proof fn law_displayed_host_tells_port(
    host: Seq<char>,
    port: Option<u16>,
    port2: Option<u16>,
    scheme: Seq<char>,
)
    requires
        displayed_host(host, port, scheme) == displayed_host(host, port2, scheme),
    ensures
        effective_port(port, scheme) == effective_port(port2, scheme),
{
    reveal_strlit(":");
    reveal_strlit("http");
    reveal_strlit("https");
    assert("http"@.len() != "https"@.len());
    if let Some(p) = port {
        text::lemma_decimal_value(p as nat);
        assert(host_and_port(host, p).skip(host.len() as int + 1) =~= text::decimal_of(p as nat));
    }
    if let Some(p) = port2 {
        text::lemma_decimal_value(p as nat);
        assert(host_and_port(host, p).skip(host.len() as int + 1) =~= text::decimal_of(p as nat));
    }
}

/// The absolute form of a target is its scheme, `://`, the authority, and all
/// that the target asks for there: its path and query, or `/` where it has
/// none.
pub proof fn law_absolute_form_keeps_the_target(
    uri: UriView,
    scheme: Seq<char>,
    authority: Seq<char>,
)
    ensures
        ({
            let whole = absolute_text(uri, scheme, authority);
            let n = scheme.len() + 3 + authority.len();
            &&& whole.len() >= n
            &&& whole.take(scheme.len() as int) == scheme
            &&& whole[scheme.len() as int] == ':'
            &&& whole[scheme.len() as int + 1] == '/'
            &&& whole[scheme.len() as int + 2] == '/'
            &&& whole.subrange(scheme.len() as int + 3, n as int) == authority
            &&& uri.path_and_query is Some ==> whole.skip(n as int) == uri.path_and_query->0
            &&& uri.path_and_query is None ==> whole.skip(n as int) == seq!['/']
        }),
{
    reveal_strlit("://");
    reveal_strlit("/");
    let whole = absolute_text(uri, scheme, authority);
    let n = (scheme.len() + 3 + authority.len()) as int;
    assert(whole.take(scheme.len() as int) =~= scheme);
    assert(whole.subrange(scheme.len() as int + 3, n) =~= authority);
    if uri.path_and_query is None {
        assert(whole.skip(n) =~= seq!['/']);
    } else {
        assert(whole.skip(n) =~= uri.path_and_query->0);
    }
}

/// A target goes to the authority that it names itself, and only where it
/// names none to that of the `CONNECT` around it; without either it goes
/// nowhere. A target that is absolute already is left as it is.
pub proof fn law_target_prefers_its_own_authority(
    uri: UriView,
    scheme: Seq<char>,
    connect: Option<Seq<char>>,
)
    ensures
        uri.authority is Some ==> target_authority(uri, connect) == uri.authority,
        uri.authority is None ==> target_authority(uri, connect) == connect,
        uri.scheme is Some ==> absolute(uri, scheme, connect) == Ok::<UriView, Seq<char>>(uri),
        uri.scheme is None && uri.authority is None && connect is None ==> absolute(
            uri,
            scheme,
            connect,
        ) is Err,
        uri.scheme is None && uri.authority is Some ==> absolute(uri, scheme, connect)
            == in_assembling(parsed_uri(absolute_text(uri, scheme, uri.authority->0))),
        uri.scheme is None && uri.authority is None && connect is Some ==> absolute(
            uri,
            scheme,
            connect,
        ) == in_assembling(parsed_uri(absolute_text(uri, scheme, connect->0))),
{
}

/// What is said of an absolute form that is no URI holds the cause, and a form
/// that is one is not changed.
pub proof fn law_assembling_keeps_the_outcome(r: Result<UriView, Seq<char>>)
    ensures
        r is Ok ==> in_assembling(r) == r,
        r is Err ==> in_assembling(r) is Err && text::ends(in_assembling(r)->Err_0, r->Err_0),
{
    if let Err(e) = r {
        let whole = "assembling absolute request URI: "@ + e;
        assert(whole.skip(whole.len() - e.len()) =~= e);
    }
}

/// A displayed host is the host, and a colon and the port exactly where a port
/// is given that the scheme does not stand for by itself: 80 for http, 443 for
/// https.
pub proof fn law_displayed_host_shows_other_ports(host: Seq<char>, port: u16, scheme: Seq<char>)
    ensures
        displayed_host(host, None, scheme) == host,
        displayed_host(host, Some(80), "http"@) == host,
        displayed_host(host, Some(443), "https"@) == host,
        port != 80 ==> displayed_host(host, Some(port), "http"@) == host + seq![':']
            + text::decimal_of(port as nat),
        port != 443 ==> displayed_host(host, Some(port), "https"@) == host + seq![':']
            + text::decimal_of(port as nat),
        scheme != "http"@ && scheme != "https"@ ==> displayed_host(host, Some(port), scheme)
            == host + seq![':'] + text::decimal_of(port as nat),
{
    reveal_strlit("http");
    reveal_strlit("https");
    reveal_strlit(":");
    assert("http"@.len() != "https"@.len());
    assert(":"@ =~= seq![':']);
}

/// What is handed on as the host of a target: with its port unless that is the
/// one which the scheme stands for by itself.
pub proof fn law_display_keeps_host_and_port(
    host: &str,
    port: Option<u16>,
    scheme: &str,
    r: String,
)
    requires
        call_ensures(display_host, (host, port, scheme), r),
    ensures
        port is None ==> r@ == host@,
        port is Some && (scheme@ == "http"@ && port->0 == 80 || scheme@ == "https"@ && port->0
            == 443) ==> r@ == host@,
        port is Some && !(scheme@ == "http"@ && port->0 == 80) && !(scheme@ == "https"@ && port->0
            == 443) ==> r@ == host@ + seq![':'] + text::decimal_of(port->0 as nat),
{
    law_displayed_host_shows_other_ports(
        host@,
        match port {
            Some(p) => p,
            None => 0,
        },
        scheme@,
    );
}

/// The absolute form of a target is assembled from the authority that the
/// target names, or else from that of the `CONNECT` around it, and from the
/// path and query that it asks for.
pub proof fn law_absolute_form_is_assembled(
    uri: &UriParts,
    scheme: &str,
    connect_authority: &Option<String>,
    r: Option<String>,
)
    requires
        call_ensures(absolute_form, (uri, scheme, connect_authority), r),
    ensures
        r is None <==> uri.authority is None && connect_authority is None,
        r is Some ==> {
            let authority = if uri.authority is Some {
                uri.authority->0@
            } else {
                connect_authority->0@
            };
            let path = if uri.path_and_query is Some {
                uri.path_and_query->0@
            } else {
                seq!['/']
            };
            r->0@ == scheme@ + seq![':', '/', '/'] + authority + path
        },
{
    reveal_strlit("://");
    reveal_strlit("/");
    assert("://"@ =~= seq![':', '/', '/']);
    assert("/"@ =~= seq!['/']);
}

} // verus!
