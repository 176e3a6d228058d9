//! The decisions of the proxy engine: what to do with a request, how a
//! `CONNECT` is served, what is recorded of it all, what is sent upstream and
//! what comes back, and how a transaction is finished.

use vstd::hash_set::*;
use vstd::prelude::*;
use vstd::string::*;

use crate::config::ProxySettings;
use crate::events::{ProxyEvent, TxState};
use crate::headers;
use crate::intercept;
use crate::intercept::{TransactionCtx, TxData};
use crate::passthrough;
use crate::store::CompletedTx;
use crate::tee::CapturedBody;
use crate::text;
use crate::uri;
use crate::uri::UriParts;

verus! {

/// The content type of the proxy's own answers.
pub const TEXT_CONTENT_TYPE: &'static str = "text/plain; charset=utf-8";

/// An answer of the proxy itself, in plain text.
#[derive(Debug)]
pub struct TextReply {
    pub status: u16,
    pub body: String,
}

/// An answer with this status and text.
pub fn text_response(status: u16, body: &str) -> (r: TextReply)
    ensures
        r.status == status,
        r.body@ == body@,
{
    TextReply { status, body: body.to_owned() }
}

/// What to do with a request on a client connection.
#[derive(Debug)]
pub enum Route {
    /// Serve a `CONNECT`.
    Connect,
    /// Proxy it: the target is absolute.
    Forward,
    /// Answer it: it was not meant for a proxy.
    Explain(TextReply),
}

/// What someone is told who browses to the proxy itself.
pub open spec fn explanation() -> Seq<char> {
    "httpmate is an HTTP proxy. Point your client's HTTP(S) proxy at this address instead of browsing to it directly.\n"@
}

/// What to do with a request on a client connection.
pub fn route(method: &str, target: &UriParts) -> (r: Route)
    ensures
        match r {
            Route::Connect => method@ == "CONNECT"@,
            Route::Forward => method@ != "CONNECT"@ && target.scheme is Some,
            Route::Explain(reply) => {
                &&& method@ != "CONNECT"@
                &&& target.scheme is None
                &&& reply.status == 400
                &&& reply.body@ == explanation()
            },
        },
{
    if text::same_text(method, "CONNECT") {
        Route::Connect
    } else if target.scheme.is_some() {
        Route::Forward
    } else {
        Route::Explain(
            text_response(
                400,
                "httpmate is an HTTP proxy. Point your client's HTTP(S) proxy at this address instead of browsing to it directly.\n",
            ),
        )
    }
}

/// Hands out the identifiers of transactions.
#[derive(Debug)]
pub struct TxIds {
    next: u64,
}

impl TxIds {
    /// The identifier that is handed out next.
    pub closed spec fn upcoming(self) -> u64 {
        self.next
    }

    /// Go on after the highest identifier in the store.
    pub fn new(max_id_at_open: u64) -> (r: Self)
        requires
            max_id_at_open < u64::MAX,
        ensures
            r.upcoming() == max_id_at_open + 1,
    {
        TxIds { next: max_id_at_open + 1 }
    }

    /// The next identifier. After the last one it starts over.
    pub fn next_id(&mut self) -> (r: u64)
        ensures
            r == old(self).upcoming(),
            final(self).upcoming() == (if r == u64::MAX {
                0
            } else {
                r + 1
            }),
    {
        let id = self.next;
        self.next = if id == u64::MAX {
            0
        } else {
            id + 1
        };
        id
    }
}

/// What is known of the TLS session with a client.
#[derive(Debug)]
pub struct TlsMeta {
    pub version: Option<String>,
    pub alpn: Option<String>,
}

impl Default for TlsMeta {
    fn default() -> (r: Self)
        ensures
            r.version is None,
            r.alpn is None,
    {
        TlsMeta { version: None, alpn: None }
    }
}

impl Clone for TlsMeta {
    fn clone(&self) -> (r: Self)
        ensures
            r == *self,
    {
        TlsMeta { version: text::clone_text(&self.version), alpn: text::clone_text(&self.alpn) }
    }
}

/// The name of a protocol version as it is shown: with dots.
pub open spec fn dotted(name: Seq<char>) -> Seq<char> {
    name.map_values(
        |c: char|
            if c == '_' {
                '.'
            } else {
                c
            },
    )
}

/// The name of a protocol version with dots in place of underscores.
fn with_dots(name: &str) -> (r: String)
    ensures
        r@ == dotted(name@),
{
    let v = text::chars_of(name);
    let mut out = String::new();
    let mut i: usize = 0;
    while i < v.len()
        invariant
            i <= v@.len(),
            v@ == name@,
            out@ == dotted(name@).take(i as int),
        decreases v@.len() - i,
    {
        out.push(
            if v[i] == '_' {
                '.'
            } else {
                v[i]
            },
        );
        i += 1;
        proof {
            assert(out@ =~= dotted(name@).take(i as int));
        }
    }
    proof {
        assert(dotted(name@).take(i as int) =~= dotted(name@));
    }
    out
}

/// What is known of a TLS session with this protocol version, by its name,
/// and this negotiated protocol.
pub fn tls_meta(version: &Option<String>, alpn: &Option<Vec<u8>>) -> (r: TlsMeta)
    ensures
        uri::optional_text(r.version) == (match version {
            Some(name) => Some(dotted(name@)),
            None => None,
        }),
        uri::optional_text(r.alpn) == (match alpn {
            Some(bytes) => Some(text::lossy_text(bytes@)),
            None => None,
        }),
        match alpn {
            Some(bytes) => vstd::utf8::valid_utf8(bytes@) ==> r.alpn->0@
                == vstd::utf8::decode_utf8(bytes@),
            None => true,
        },
{
    TlsMeta {
        version: match version {
            Some(name) => Some(with_dots(name.as_str())),
            None => None,
        },
        alpn: match alpn {
            Some(bytes) => Some(text::lossy(bytes.as_slice())),
            None => None,
        },
    }
}

/// How a `CONNECT` is served.
#[derive(Debug)]
pub enum ConnectAction {
    /// Answer it: it names no host.
    Refuse(TextReply),
    /// Tunnel it opaquely.
    Tunnel { host: String, port: u16 },
    /// Terminate TLS and serve what is inside.
    Intercept { host: String, port: u16 },
}

/// The port of a `CONNECT`; that of TLS where none is given.
pub open spec fn connect_port(port: Option<u16>) -> u16 {
    match port {
        Some(p) => p,
        None => 443,
    }
}

/// What the engine decides by.
pub struct Engine {
    pub settings: ProxySettings,
    /// Hosts that failed the client-side TLS handshake (certificate pinning,
    /// most likely) and are tunneled opaquely from then on.
    pub dynamic_passthrough: StringHashSet,
}

impl Engine {
    /// Whether a host is tunneled opaquely.
    pub open spec fn tunnels(self, host: Seq<char>) -> bool {
        ||| passthrough::any_accepts(text::texts(self.settings.passthrough_hosts@), host)
        ||| self.dynamic_passthrough@.contains(host)
    }

    pub fn new(settings: ProxySettings) -> (r: Self)
        ensures
            r.settings == settings,
            r.dynamic_passthrough@ == Set::<Seq<char>>::empty(),
    {
        Engine { settings, dynamic_passthrough: StringHashSet::new() }
    }

    /// Whether a host is tunneled opaquely.
    pub fn is_passthrough(&self, host: &str) -> (r: bool)
        ensures
            r == self.tunnels(host@),
    {
        passthrough::any_matches(&self.settings.passthrough_hosts, host)
            || self.dynamic_passthrough.contains(host)
    }

    /// How a `CONNECT` to this target is served: as an opaque tunnel, or by
    /// TLS interception.
    pub fn handle_connect(&self, target: &UriParts) -> (r: ConnectAction)
        ensures
            match r {
                ConnectAction::Refuse(reply) => {
                    &&& target.host is None
                    &&& reply.status == 400
                    &&& reply.body@ == "CONNECT requires an authority\n"@
                },
                ConnectAction::Tunnel { host, port } => {
                    &&& target.host == Some(host)
                    &&& port == connect_port(target.port)
                    &&& self.tunnels(host@)
                },
                ConnectAction::Intercept { host, port } => {
                    &&& target.host == Some(host)
                    &&& port == connect_port(target.port)
                    &&& !self.tunnels(host@)
                },
            },
    {
        match &target.host {
            None => ConnectAction::Refuse(text_response(400, "CONNECT requires an authority\n")),
            Some(host) => {
                let port: u16 = match target.port {
                    Some(p) => p,
                    None => 443,
                };
                if self.is_passthrough(host.as_str()) {
                    ConnectAction::Tunnel { host: host.clone(), port }
                } else {
                    ConnectAction::Intercept { host: host.clone(), port }
                }
            },
        }
    }

    /// A client refused the certificate for a host: the host is tunneled from
    /// now on, and what happened is recorded. Nothing else changes.
    pub fn record_handshake_failure(
        &mut self,
        id: u64,
        now_ms: i64,
        host: &str,
        port: u16,
        peer: &str,
        err: &str,
    ) -> (r: TransactionCtx)
        ensures
            final(self).settings == old(self).settings,
            final(self).dynamic_passthrough@ == old(self).dynamic_passthrough@.insert(host@),
            final(self).tunnels(host@),
            is_connect_record(r.data, id, now_ms, host@, port, peer@),
            r.data.error is Some,
            r.data.error->0@ == rejected_text(host@, port, err@),
    {
        let fresh = self.dynamic_passthrough.insert(host.to_owned());
        let mut ctx = connect_record(id, now_ms, host, port, peer);
        let target = uri::with_port(host, port);
        let mut message = "client rejected the intercept certificate for ".to_owned();
        message.append(target.as_str());
        message.append(" (");
        message.append(err);
        message.append(
            "); the host may use certificate pinning — it will be tunneled opaquely from now on",
        );
        ctx.data.error = Some(message);
        ctx
    }
}

/// What is recorded of a host whose certificate a client refused.
pub open spec fn rejected_text(host: Seq<char>, port: u16, err: Seq<char>) -> Seq<char> {
    "client rejected the intercept certificate for "@ + uri::host_and_port(host, port) + " ("@ + err
        + "); the host may use certificate pinning — it will be tunneled opaquely from now on"@
}

/// The record of a `CONNECT` that is not looked into, but for its error.
pub open spec fn is_connect_record(
    d: TxData,
    id: u64,
    now_ms: i64,
    host: Seq<char>,
    port: u16,
    peer: Seq<char>,
) -> bool {
    &&& d.id == id
    &&& d.started_at_ms == now_ms
    &&& d.kind@ == "tunnel"@
    &&& d.scheme@ == "https"@
    &&& d.method@ == "CONNECT"@
    &&& d.host@ == uri::displayed_host(host, Some(port), "https"@)
    &&& d.path@ == ""@
    &&& d.query is None
    &&& d.http_version@ == "HTTP/1.1"@
    &&& d.client_addr@ == peer
    &&& d.tls_version is None
    &&& d.alpn is None
    &&& d.status is None
    &&& d.content_type is None
    &&& d.req_header_blob@ == Seq::<u8>::empty()
    &&& d.resp_header_blob@ == Seq::<u8>::empty()
    &&& d.tags@ == "{}"@
}

/// The record of a `CONNECT` that is not looked into. It begins without an
/// error.
pub fn connect_record(id: u64, now_ms: i64, host: &str, port: u16, peer: &str) -> (r:
    TransactionCtx)
    ensures
        is_connect_record(r.data, id, now_ms, host@, port, peer@),
        r.data.error is None,
{
    let mut data = TxData::default();
    data.id = id;
    data.started_at_ms = now_ms;
    data.kind = "tunnel".to_owned();
    data.scheme = "https".to_owned();
    data.method = "CONNECT".to_owned();
    data.host = uri::display_host(host, Some(port), "https");
    data.client_addr = peer.to_owned();
    data.http_version = "HTTP/1.1".to_owned();
    TransactionCtx::new(data)
}

/// The answer when the host of a tunnel cannot be reached.
pub fn tunnel_unreachable(host: &str, port: u16, err: &str) -> (r: TextReply)
    ensures
        r.status == 502,
        r.body@ == "could not reach "@ + uri::host_and_port(host@, port) + ": "@ + err@ + "\n"@,
{
    let target = uri::with_port(host, port);
    let mut body = "could not reach ".to_owned();
    body.append(target.as_str());
    body.append(": ");
    body.append(err);
    body.append("\n");
    TextReply { status: 502, body }
}

/// How many bytes a tunnel carried up and down.
#[derive(Debug, Clone, Copy, PartialEq, Eq, Structural)]
pub struct TunnelBytes {
    pub sent: u64,
    pub received: u64,
}

/// How a tunnel broke, and how many bytes it had carried by then.
#[derive(Debug)]
pub struct TunnelError {
    pub message: String,
    pub bytes: TunnelBytes,
}

/// A tunnel ended. Its bytes are counted, also where it broke; the error is
/// recorded then.
pub fn tunnel_ended(ctx: &mut TransactionCtx, outcome: Result<TunnelBytes, TunnelError>) -> (r:
    TunnelBytes)
    ensures
        match outcome {
            Ok(bytes) => r == bytes && *final(ctx) == *old(ctx),
            Err(e) => {
                &&& r == e.bytes
                &&& final(ctx).data == (TxData { error: final(ctx).data.error, ..old(ctx).data })
                &&& final(ctx).data.error is Some
                &&& final(ctx).data.error->0@ == "tunnel error: "@ + e.message@
            },
        },
{
    match outcome {
        Ok(bytes) => bytes,
        Err(e) => {
            let mut message = "tunnel error: ".to_owned();
            message.append(e.message.as_str());
            ctx.data.error = Some(message);
            e.bytes
        },
    }
}

/// The authority of the requests inside an intercepted `CONNECT`.
pub open spec fn connect_authority_of(host: Seq<char>, port: u16) -> Seq<char> {
    if port == 443 {
        host
    } else {
        uri::host_and_port(host, port)
    }
}

/// The authority of the requests inside an intercepted `CONNECT`.
pub fn connect_authority(host: &str, port: u16) -> (r: String)
    ensures
        r@ == connect_authority_of(host@, port),
{
    if port == 443 {
        host.to_owned()
    } else {
        uri::with_port(host, port)
    }
}

/// The protocols that are offered to an intercepted client, in order of
/// preference.
pub fn alpn_protocols() -> (r: Vec<Vec<u8>>)
    ensures
        r@.len() == 2,
        r@[0]@ == vstd::utf8::encode_utf8("h2"@),
        r@[1]@ == vstd::utf8::encode_utf8("http/1.1"@),
{
    let mut h2: Vec<u8> = Vec::new();
    h2.extend_from_slice("h2".as_bytes());
    let mut http1: Vec<u8> = Vec::new();
    http1.extend_from_slice("http/1.1".as_bytes());
    let mut out: Vec<Vec<u8>> = Vec::new();
    out.push(h2);
    out.push(http1);
    proof {
        assert(out@[0]@ =~= vstd::utf8::encode_utf8("h2"@));
        assert(out@[1]@ =~= vstd::utf8::encode_utf8("http/1.1"@));
    }
    out
}

/// The name that a client's certificate is minted for: the server name that
/// it asked for, or else the host of its `CONNECT`.
pub fn certificate_name(server_name: Option<String>, fallback: &str) -> (r: String)
    ensures
        r@ == (match server_name {
            Some(name) => name@,
            None => fallback@,
        }),
{
    match server_name {
        Some(name) => name,
        None => fallback.to_owned(),
    }
}

/// The answer to a request whose target has no absolute form.
pub fn bad_target(err: &str) -> (r: TextReply)
    ensures
        r.status == 400,
        r.body@ == err@ + "\n"@,
{
    let mut body = err.to_owned();
    body.append("\n");
    TextReply { status: 400, body }
}

/// A request as it enters the pipeline.
#[derive(Debug)]
pub struct RequestHead<'a> {
    pub scheme: &'a str,
    pub method: &'a str,
    pub http_version: &'a str,
    pub client_addr: &'a str,
    pub tls: &'a Option<TlsMeta>,
}

/// What is known of the TLS session that a request came through, if any.
pub open spec fn session_of(tls: Option<TlsMeta>) -> TlsMeta {
    match tls {
        Some(t) => t,
        None => TlsMeta { version: None, alpn: None },
    }
}

/// The record of a request that enters the pipeline.
pub open spec fn is_request_record(
    d: TxData,
    id: u64,
    now_ms: i64,
    head: RequestHead<'_>,
    target: UriParts,
    entries: Seq<(Seq<char>, Seq<u8>)>,
) -> bool {
    let host = match target.host {
        Some(h) => h@,
        None => ""@,
    };
    &&& d.id == id
    &&& d.started_at_ms == now_ms
    &&& d.kind@ == "http"@
    &&& d.scheme@ == head.scheme@
    &&& d.method@ == head.method@
    &&& d.host@ == uri::displayed_host(host, target.port, head.scheme@)
    &&& d.path@ == target.path@
    &&& d.query == target.query
    &&& d.http_version@ == head.http_version@
    &&& d.client_addr@ == head.client_addr@
    &&& d.tls_version == session_of(*head.tls).version
    &&& d.alpn == session_of(*head.tls).alpn
    &&& d.status is None
    &&& d.content_type is None
    &&& d.error is None
    &&& d.req_header_blob@ == headers::header_blob(entries)
    &&& d.resp_header_blob@ == Seq::<u8>::empty()
    &&& d.tags@ == "{}"@
}

/// The record of a request that enters the pipeline. `target` is absolute.
pub fn request_record(
    id: u64,
    now_ms: i64,
    head: RequestHead<'_>,
    target: &UriParts,
    fields: &http::HeaderMap,
) -> (r: TransactionCtx)
    ensures
        is_request_record(
            r.data,
            id,
            now_ms,
            head,
            *target,
            headers::header_entries(*fields),
        ),
        headers::valid_entries(headers::header_entries(*fields)),
{
    let mut data = TxData::default();
    data.id = id;
    data.started_at_ms = now_ms;
    data.kind = "http".to_owned();
    data.scheme = head.scheme.to_owned();
    data.method = head.method.to_owned();
    data.host = match &target.host {
        Some(h) => uri::display_host(h.as_str(), target.port, head.scheme),
        None => uri::display_host("", target.port, head.scheme),
    };
    data.path = target.path.clone();
    data.query = text::clone_text(&target.query);
    data.http_version = head.http_version.to_owned();
    data.client_addr = head.client_addr.to_owned();
    if let Some(t) = head.tls {
        data.tls_version = text::clone_text(&t.version);
        data.alpn = text::clone_text(&t.alpn);
    }
    data.req_header_blob = headers::serialize_headers(fields);
    TransactionCtx::new(data)
}

/// Whether a request asks for another protocol, so that a switch has to be
/// bridged.
pub fn wants_upgrade(fields: &http::HeaderMap) -> (r: bool)
    ensures
        r == (headers::values_of(headers::header_entries(*fields), "upgrade"@).len() > 0),
{
    proof {
        headers::lemma_names_found();
    }
    headers::has_header(fields, "upgrade")
}

/// `after` is what is sent upstream of the headers `before`: all but the
/// hop-by-hop fields and `Host`.
pub open spec fn is_prepared(
    before: Seq<(Seq<char>, Seq<u8>)>,
    after: Seq<(Seq<char>, Seq<u8>)>,
    wants_upgrade: bool,
) -> bool {
    forall|n: Seq<char>|
        #![trigger headers::values_of(after, n)]
        headers::values_of(after, n) == (if n == "host"@ || headers::is_hop(
            before,
            wants_upgrade,
            n,
        ) {
            Seq::<Seq<u8>>::empty()
        } else {
            headers::values_of(before, n)
        })
}

/// Make the headers of a request those that are sent upstream: without its
/// hop-by-hop fields, but for those of a wanted upgrade, and without `Host`,
/// which the upstream client writes itself.
pub fn prepare_upstream(fields: &mut http::HeaderMap, wants_upgrade: bool)
    ensures
        ({
            let before = headers::header_entries(*old(fields));
            let after = headers::header_entries(*final(fields));
            forall|n: Seq<char>|
                #![trigger headers::values_of(after, n)]
                headers::values_of(after, n) == (if n == "host"@ || headers::is_hop(
                    before,
                    wants_upgrade,
                    n,
                ) {
                    Seq::<Seq<u8>>::empty()
                } else {
                    headers::values_of(before, n)
                })
        }),
        is_prepared(
            headers::header_entries(*old(fields)),
            headers::header_entries(*final(fields)),
            wants_upgrade,
        ),
{
    headers::strip_hop_headers(fields, wants_upgrade);
    proof {
        headers::lemma_names_found();
    }
    headers::remove_header(fields, "host");
}

/// What is recorded of a request that could not be sent upstream.
pub open spec fn upstream_error(err: Seq<char>) -> Seq<char> {
    "upstream request failed: "@ + err
}

/// A request could not be sent upstream: the error is recorded, and it is
/// also the answer.
pub fn upstream_failed(ctx: &mut TransactionCtx, err: &str) -> (r: TextReply)
    ensures
        final(ctx).data == (TxData { error: final(ctx).data.error, ..old(ctx).data }),
        final(ctx).data.error is Some,
        final(ctx).data.error->0@ == upstream_error(err@),
        r.status == 502,
        r.body@ == upstream_error(err@) + "\n"@,
{
    let mut message = "upstream request failed: ".to_owned();
    message.append(err);
    let mut body = message.clone();
    body.append("\n");
    ctx.data.error = Some(message);
    TextReply { status: 502, body }
}

/// What comes of an upstream response.
#[derive(Debug, Clone, Copy, PartialEq, Eq, Structural)]
pub enum Reply {
    /// Hand it on.
    Relay,
    /// Hand it on, and bridge the two connections if the request asked for
    /// another protocol.
    Switch,
}

/// Upstream answered. A switch of protocols is recorded as such and keeps all
/// of its headers; every other response loses its hop-by-hop fields.
pub fn upstream_replied(
    ctx: &mut TransactionCtx,
    status: u16,
    fields: &mut http::HeaderMap,
) -> (r: Reply)
    ensures
        r == (if status == 101 {
            Reply::Switch
        } else {
            Reply::Relay
        }),
        status == 101 ==> {
            &&& final(ctx).data == (TxData { kind: final(ctx).data.kind, ..old(ctx).data })
            &&& final(ctx).data.kind@ == "ws-upgrade"@
            &&& *final(fields) == *old(fields)
        },
        status != 101 ==> {
            &&& *final(ctx) == *old(ctx)
            &&& headers::stripped(
                headers::header_entries(*old(fields)),
                headers::header_entries(*final(fields)),
                false,
            )
        },
{
    if status == 101 {
        ctx.data.kind = "ws-upgrade".to_owned();
        Reply::Switch
    } else {
        headers::strip_hop_headers(fields, false);
        Reply::Relay
    }
}

/// How many bytes a transaction took: the stored headers and the whole body.
pub fn recorded_size(header_blob: &Vec<u8>, body_total: u64) -> (r: u64)
    requires
        header_blob@.len() + body_total <= u64::MAX,
    ensures
        r == header_blob@.len() + body_total,
{
    header_blob.len() as u64 + body_total
}

/// A finished transaction: what is stored of it, and the event that tells of
/// it.
#[derive(Debug)]
pub struct Finished {
    pub completed: CompletedTx,
    pub event: ProxyEvent,
}

/// How a transaction ended.
pub open spec fn end_state(d: TxData) -> TxState {
    if d.error is Some {
        TxState::Failed
    } else {
        TxState::Completed
    }
}

/// The record to store of a transaction of which `d` is known, with the
/// bodies that were captured.
pub open spec fn is_finished(
    d: TxData,
    duration_ms: Option<u64>,
    req_size: u64,
    resp_size: u64,
    req_cap: CapturedBody,
    resp_cap: CapturedBody,
    tx: CompletedTx,
) -> bool {
    &&& tx.summary == intercept::summary_of(d, end_state(d), duration_ms, req_size, resp_size)
    &&& tx.http_version == d.http_version
    &&& tx.client_addr == d.client_addr
    &&& tx.tls_version == d.tls_version
    &&& tx.alpn == d.alpn
    &&& tx.req_header_blob@ == d.req_header_blob@
    &&& tx.resp_header_blob@ == d.resp_header_blob@
    &&& tx.req_body == req_cap.bytes
    &&& tx.req_body_total == req_cap.total
    &&& tx.req_body_truncated == req_cap.truncated
    &&& tx.resp_body == resp_cap.bytes
    &&& tx.resp_body_total == resp_cap.total
    &&& tx.resp_body_truncated == resp_cap.truncated
    &&& tx.tags == d.tags
}

/// Finish a transaction: the record to store and the final event. Shared by
/// the request pipeline, tunnels, and handshake-failure records. The stored
/// headers move into the record; nothing else of the transaction changes.
pub fn finish_transaction(
    ctx: &mut TransactionCtx,
    duration_ms: Option<u64>,
    req_size: u64,
    resp_size: u64,
    req_cap: CapturedBody,
    resp_cap: CapturedBody,
) -> (r: Finished)
    ensures
        is_finished(
            old(ctx).data,
            duration_ms,
            req_size,
            resp_size,
            req_cap,
            resp_cap,
            r.completed,
        ),
        r.completed.summary.id == old(ctx).data.id,
        r.completed.summary.started_at_ms == old(ctx).data.started_at_ms,
        r.completed.summary.kind == old(ctx).data.kind,
        r.completed.summary.scheme == old(ctx).data.scheme,
        r.completed.summary.method == old(ctx).data.method,
        r.completed.summary.host == old(ctx).data.host,
        r.completed.summary.path == old(ctx).data.path,
        r.completed.summary.query == old(ctx).data.query,
        r.completed.summary.status == old(ctx).data.status,
        r.completed.summary.content_type == old(ctx).data.content_type,
        r.completed.summary.error == old(ctx).data.error,
        r.completed.summary.state == (if old(ctx).data.error is Some {
            TxState::Failed
        } else {
            TxState::Completed
        }),
        r.completed.summary.duration_ms == duration_ms,
        r.completed.summary.req_size == req_size,
        r.completed.summary.resp_size == resp_size,
        r.completed.req_body == req_cap.bytes,
        r.completed.req_body_total == req_cap.total,
        r.completed.req_body_truncated == req_cap.truncated,
        r.completed.resp_body == resp_cap.bytes,
        r.completed.resp_body_total == resp_cap.total,
        r.completed.resp_body_truncated == resp_cap.truncated,
        r.completed.req_header_blob@ == old(ctx).data.req_header_blob@,
        r.completed.resp_header_blob@ == old(ctx).data.resp_header_blob@,
        r.event == ProxyEvent::TransactionCompleted(r.completed.summary),
        final(ctx).data == (TxData {
            req_header_blob: final(ctx).data.req_header_blob,
            resp_header_blob: final(ctx).data.resp_header_blob,
            ..old(ctx).data
        }),
        final(ctx).data.req_header_blob@ == Seq::<u8>::empty(),
        final(ctx).data.resp_header_blob@ == Seq::<u8>::empty(),
{
    let state = if ctx.data.error.is_some() {
        TxState::Failed
    } else {
        TxState::Completed
    };
    let summary = ctx.summary_sized(state, duration_ms, req_size, resp_size);
    let mut req_header_blob: Vec<u8> = Vec::new();
    std::mem::swap(&mut req_header_blob, &mut ctx.data.req_header_blob);
    let mut resp_header_blob: Vec<u8> = Vec::new();
    std::mem::swap(&mut resp_header_blob, &mut ctx.data.resp_header_blob);
    let completed = CompletedTx {
        summary: summary.clone(),
        http_version: ctx.data.http_version.clone(),
        client_addr: ctx.data.client_addr.clone(),
        tls_version: text::clone_text(&ctx.data.tls_version),
        alpn: text::clone_text(&ctx.data.alpn),
        req_header_blob,
        resp_header_blob,
        req_body: req_cap.bytes,
        req_body_total: req_cap.total,
        req_body_truncated: req_cap.truncated,
        resp_body: resp_cap.bytes,
        resp_body_total: resp_cap.total,
        resp_body_truncated: resp_cap.truncated,
        tags: ctx.data.tags.clone(),
    };
    Finished { completed, event: ProxyEvent::TransactionCompleted(summary) }
}

/// The identifier that is handed out after `n` others.
pub open spec fn nth_id(first: u64, n: nat) -> u64
    decreases n,
{
    if n == 0 {
        first
    } else {
        let before = nth_id(first, (n - 1) as nat);
        if before == u64::MAX {
            0
        } else {
            (before + 1) as u64
        }
    }
}

/// Until they are used up, identifiers only grow: none is handed out twice,
/// and none that the store held when it was opened.
pub proof fn law_ids_grow(max_id_at_open: u64, n: nat, m: nat)
    requires
        max_id_at_open + 1 + m <= u64::MAX,
        n < m,
    ensures
        nth_id((max_id_at_open + 1) as u64, n) > max_id_at_open,
        nth_id((max_id_at_open + 1) as u64, n) < nth_id((max_id_at_open + 1) as u64, m),
{
    lemma_nth_id((max_id_at_open + 1) as u64, n);
    lemma_nth_id((max_id_at_open + 1) as u64, m);
}

/// Identifiers are counted up one by one.
proof fn lemma_nth_id(first: u64, n: nat)
    requires
        first + n <= u64::MAX,
    ensures
        nth_id(first, n) == first + n,
    decreases n,
{
    if n > 0 {
        lemma_nth_id(first, (n - 1) as nat);
    }
}

/// Recording that a client refused the certificate for a host changes how
/// that host is served and no other: it is tunneled from then on, and what
/// was tunneled stays so.
pub proof fn law_rejected_host_is_tunneled(before: Engine, after: Engine, host: Seq<char>)
    requires
        after.settings == before.settings,
        after.dynamic_passthrough@ == before.dynamic_passthrough@.insert(host),
    ensures
        forall|h: Seq<char>| #[trigger]
            after.tunnels(h) <==> before.tunnels(h) || h == host,
{
}

/// The authority of the requests inside an intercepted `CONNECT` means the
/// host and the port of that `CONNECT`: different ports have different
/// authorities, and the port is left out only where it is the default one of
/// https.
pub proof fn law_connect_authority_names_host_and_port(host: Seq<char>, p: u16, q: u16)
    ensures
        connect_authority_of(host, p) == connect_authority_of(host, q) ==> p == q,
        connect_authority_of(host, p) == host <==> p == 443,
        p != 443 ==> connect_authority_of(host, p) == host + ":"@ + text::decimal_of(p as nat),
{
    reveal_strlit(":");
    text::lemma_decimal_value(p as nat);
    text::lemma_decimal_value(q as nat);
    let n = host.len() as int + 1;
    if p != 443 {
        assert(connect_authority_of(host, p).skip(n) =~= text::decimal_of(p as nat));
    }
    if q != 443 {
        assert(connect_authority_of(host, q).skip(n) =~= text::decimal_of(q as nat));
    }
}

/// The authorities that two calls hand out for one host are equal only for one
/// port, and such an authority is the bare host for the default port of https
/// only.
pub proof fn law_connect_authorities_differ(host: &str, p: u16, q: u16, a: String, b: String)
    requires
        call_ensures(connect_authority, (host, p), a),
        call_ensures(connect_authority, (host, q), b),
    ensures
        a@ == b@ ==> p == q,
        a@ == host@ <==> p == 443,
        p != 443 ==> a@ == host@ + ":"@ + text::decimal_of(p as nat),
{
    law_connect_authority_names_host_and_port(host@, p, q);
}

/// A request inside an intercepted `CONNECT` that names no authority itself
/// goes to where the `CONNECT` went: to its host, and to its port.
pub proof fn law_inner_request_goes_to_the_connect_host(
    target: uri::UriView,
    host: Seq<char>,
    port: u16,
)
    requires
        target.authority is None,
    ensures
        uri::target_authority(target, Some(connect_authority_of(host, port))) == Some(
            if port == 443 {
                host
            } else {
                host + ":"@ + text::decimal_of(port as nat)
            },
        ),
{
}

/// A `CONNECT` is served at the host that it names and at its port, which is
/// that of https where it names none; it is refused exactly where it names no
/// host.
pub proof fn law_connect_is_served_where_it_points(
    engine: &Engine,
    target: &UriParts,
    r: ConnectAction,
)
    requires
        call_ensures(Engine::handle_connect, (engine, target), r),
    ensures
        r is Refuse <==> target.host is None,
        match r {
            ConnectAction::Refuse(reply) => reply.status == 400,
            ConnectAction::Tunnel { host, port } | ConnectAction::Intercept { host, port } => {
                &&& target.host == Some(host)
                &&& target.port is Some ==> port == target.port->0
                &&& target.port is None ==> port == 443
            },
        },
        r is Tunnel ==> ({
            ||| engine.dynamic_passthrough@.contains(target.host->0@)
            ||| exists|i: int|
                0 <= i < engine.settings.passthrough_hosts@.len() && passthrough::accepts(
                    (#[trigger] engine.settings.passthrough_hosts@[i])@,
                    target.host->0@,
                )
        }),
        r is Intercept ==> {
            &&& !engine.dynamic_passthrough@.contains(target.host->0@)
            &&& forall|i: int|
                0 <= i < engine.settings.passthrough_hosts@.len() ==> !passthrough::accepts(
                    (#[trigger] engine.settings.passthrough_hosts@[i])@,
                    target.host->0@,
                )
        },
{
    let patterns = engine.settings.passthrough_hosts@;
    let all = text::texts(patterns);
    if r is Tunnel && !engine.dynamic_passthrough@.contains(target.host->0@) {
        let i = choose|i: int|
            0 <= i < all.len() && passthrough::accepts(#[trigger] all[i], target.host->0@);
        assert(passthrough::accepts(patterns[i]@, target.host->0@));
    }
    if r is Intercept {
        assert forall|i: int| 0 <= i < patterns.len() implies !passthrough::accepts(
            (#[trigger] patterns[i])@,
            target.host->0@,
        ) by {
            assert(all[i] == patterns[i]@);
        }
    }
}

/// A request is answered by the proxy itself only if it is no `CONNECT` and
/// its target is not absolute; then the answer is a client error that says
/// what the address is for.
pub proof fn law_only_stray_requests_are_explained(method: &str, target: &UriParts, r: Route)
    requires
        call_ensures(route, (method, target), r),
    ensures
        r is Connect <==> method@ == "CONNECT"@,
        r is Forward <==> method@ != "CONNECT"@ && target.scheme is Some,
        r is Explain <==> method@ != "CONNECT"@ && target.scheme is None,
        r matches Route::Explain(reply) ==> reply.status == 400 && text::contains_text(
            reply.body@,
            "HTTP proxy"@,
        ),
{
    if r is Explain {
        let body = r->Explain_0.body@;
        reveal_strlit("HTTP proxy");
        reveal_strlit(
            "httpmate is an HTTP proxy. Point your client's HTTP(S) proxy at this address instead of browsing to it directly.\n",
        );
        assert(body.subrange(15, 25) =~= "HTTP proxy"@);
        assert(text::occurs_at(body, "HTTP proxy"@, 15));
    }
}

/// The shown name of a protocol version is the name with every underscore a
/// dot and nothing else changed.
pub proof fn law_version_is_shown_with_dots(name: Seq<char>, i: int)
    requires
        0 <= i < name.len(),
    ensures
        dotted(name).len() == name.len(),
        name[i] == '_' ==> dotted(name)[i] == '.',
        name[i] != '_' ==> dotted(name)[i] == name[i],
        !dotted(name).contains('_'),
{
    if dotted(name).contains('_') {
        let k = choose|k: int| 0 <= k < name.len() && dotted(name)[k] == '_';
        assert(dotted(name)[k] == '.' || dotted(name)[k] == name[k]);
    }
}

/// The answers for a host that cannot be reached and for a request that could
/// not be sent are gateway errors and hold the cause; that for a bad target is
/// a client error and holds it too.
pub proof fn law_answers_hold_the_cause(
    host: &str,
    port: u16,
    err: &str,
    unreachable: TextReply,
    bad: TextReply,
)
    requires
        call_ensures(tunnel_unreachable, (host, port, err), unreachable),
        call_ensures(bad_target, (err,), bad),
    ensures
        unreachable.status == 502,
        text::contains_text(unreachable.body@, err@),
        text::contains_text(unreachable.body@, host@ + ":"@ + text::decimal_of(port as nat)),
        bad.status == 400,
        text::begins(bad.body@, err@),
        text::contains_text(upstream_error(err@), err@),
{
    reveal_strlit("could not reach ");
    reveal_strlit(": ");
    reveal_strlit("\n");
    reveal_strlit("upstream request failed: ");
    let at = uri::host_and_port(host@, port);
    let b = unreachable.body@;
    let i = 16 + at.len() as int;
    assert(b.subrange(16, i) =~= at);
    assert(text::occurs_at(b, at, 16));
    assert(b.subrange(i + 2, i + 2 + err@.len()) =~= err@);
    assert(text::occurs_at(b, err@, i + 2));
    assert(bad.body@.take(err@.len() as int) =~= err@);
    let u = upstream_error(err@);
    assert(u.subrange(25, 25int + err@.len()) =~= err@);
    assert(text::occurs_at(u, err@, 25));
}

/// The record of a `CONNECT` shows the host that was asked for, with its port
/// unless that is the default one of https, and claims no target beyond it.
pub proof fn law_connect_record_shows_the_host(
    d: TxData,
    id: u64,
    now_ms: i64,
    host: Seq<char>,
    port: u16,
    peer: Seq<char>,
)
    requires
        is_connect_record(d, id, now_ms, host, port, peer),
    ensures
        d.id == id,
        d.started_at_ms == now_ms,
        d.client_addr@ == peer,
        d.method@ == "CONNECT"@,
        d.kind@ == "tunnel"@,
        d.scheme@ == "https"@,
        port == 443 ==> d.host@ == host,
        port != 443 ==> d.host@ == host + ":"@ + text::decimal_of(port as nat),
        d.path@.len() == 0,
        d.query is None,
        d.status is None,
        d.content_type is None,
        d.tls_version is None,
        d.alpn is None,
{
    reveal_strlit("");
    reveal_strlit("http");
    reveal_strlit("https");
    assert("http"@.len() != "https"@.len());
}

/// What is recorded of a refused certificate names the host with its port and
/// the client's reason.
pub proof fn law_rejection_names_host_and_reason(host: Seq<char>, port: u16, err: Seq<char>)
    ensures
        text::contains_text(
            rejected_text(host, port, err),
            host + ":"@ + text::decimal_of(port as nat),
        ),
        text::contains_text(rejected_text(host, port, err), err),
{
    reveal_strlit("client rejected the intercept certificate for ");
    reveal_strlit(" (");
    let t = rejected_text(host, port, err);
    let at = uri::host_and_port(host, port);
    let n = "client rejected the intercept certificate for "@.len() as int;
    let m = n + at.len();
    assert(t.subrange(n, m) =~= at);
    assert(text::occurs_at(t, at, n));
    assert(t.subrange(m + 2, m + 2 + err.len()) =~= err);
    assert(text::occurs_at(t, err, m + 2));
}

/// The record of a request tells the request: its method, scheme, path and
/// query, its version and client, and the host with its port unless that is
/// the default one of the scheme.
pub proof fn law_request_record_tells_the_request(
    d: TxData,
    id: u64,
    now_ms: i64,
    head: RequestHead<'_>,
    target: UriParts,
    entries: Seq<(Seq<char>, Seq<u8>)>,
)
    requires
        is_request_record(d, id, now_ms, head, target, entries),
    ensures
        d.id == id,
        d.started_at_ms == now_ms,
        d.kind@ == "http"@,
        d.method@ == head.method@,
        d.scheme@ == head.scheme@,
        d.path@ == target.path@,
        d.query == target.query,
        d.http_version@ == head.http_version@,
        d.client_addr@ == head.client_addr@,
        head.tls is Some ==> d.tls_version == head.tls->0.version && d.alpn == head.tls->0.alpn,
        head.tls is None ==> d.tls_version is None && d.alpn is None,
        d.req_header_blob@ == headers::header_blob(entries),
        d.status is None,
        d.error is None,
        target.host is Some && target.port is None ==> d.host@ == target.host->0@,
        target.host is Some && target.port is Some && !(head.scheme@ == "https"@ && target.port->0
            == 443) && !(head.scheme@ == "http"@ && target.port->0 == 80) ==> d.host@
            == target.host->0@ + ":"@ + text::decimal_of(target.port->0 as nat),
        target.host is Some && target.port is Some && (head.scheme@ == "https"@ && target.port->0
            == 443 || head.scheme@ == "http"@ && target.port->0 == 80) ==> d.host@
            == target.host->0@,
{
}

/// What is stored of a finished request, and told by its last event, is the
/// request as it came in: its method, scheme, path, query, version, client and
/// headers, whatever was noted of the response meanwhile.
pub proof fn law_finished_request_tells_the_request(
    d: TxData,
    id: u64,
    now_ms: i64,
    head: RequestHead<'_>,
    target: UriParts,
    entries: Seq<(Seq<char>, Seq<u8>)>,
    noted: TxData,
    duration_ms: Option<u64>,
    req_size: u64,
    resp_size: u64,
    req_cap: CapturedBody,
    resp_cap: CapturedBody,
    tx: CompletedTx,
)
    requires
        is_request_record(d, id, now_ms, head, target, entries),
        noted == (TxData {
            kind: noted.kind,
            status: noted.status,
            content_type: noted.content_type,
            error: noted.error,
            resp_header_blob: noted.resp_header_blob,
            tags: noted.tags,
            ..d
        }),
        is_finished(noted, duration_ms, req_size, resp_size, req_cap, resp_cap, tx),
    ensures
        tx.summary.id == id,
        tx.summary.started_at_ms == now_ms,
        tx.summary.method@ == head.method@,
        tx.summary.scheme@ == head.scheme@,
        tx.summary.path@ == target.path@,
        tx.summary.query == target.query,
        tx.summary.host == d.host,
        tx.summary.kind == noted.kind,
        tx.summary.status == noted.status,
        tx.summary.content_type == noted.content_type,
        tx.summary.error == noted.error,
        tx.summary.state is Failed <==> noted.error is Some,
        tx.summary.state is Completed <==> noted.error is None,
        tx.summary.duration_ms == duration_ms,
        tx.summary.req_size == req_size,
        tx.summary.resp_size == resp_size,
        tx.http_version@ == head.http_version@,
        tx.client_addr@ == head.client_addr@,
        head.tls is Some ==> tx.tls_version == head.tls->0.version && tx.alpn == head.tls->0.alpn,
        tx.req_header_blob@ == headers::header_blob(entries),
        tx.resp_header_blob@ == noted.resp_header_blob@,
        tx.req_body == req_cap.bytes,
        tx.req_body_total == req_cap.total,
        tx.req_body_truncated == req_cap.truncated,
        tx.resp_body == resp_cap.bytes,
        tx.resp_body_total == resp_cap.total,
        tx.resp_body_truncated == resp_cap.truncated,
        tx.tags == noted.tags,
{
}

/// Of the identifiers that are handed out one after the other, the first is
/// the one after the highest that the store held, and each next one is one
/// more; only after the last number there is does it start over at zero.
pub proof fn law_ids_count_up(first: u64, n: nat)
    ensures
        nth_id(first, 0) == first,
        nth_id(first, n) < u64::MAX ==> nth_id(first, n + 1) == nth_id(first, n) + 1,
        nth_id(first, n) == u64::MAX ==> nth_id(first, n + 1) == 0,
{
}

/// A request is sent upstream with all of its end-to-end fields but `Host`,
/// credentials and cookies among them, and without any field that concerns its
/// own connection only; those of a wanted upgrade go along.
pub proof fn law_upstream_request_keeps_its_fields(
    before: Seq<(Seq<char>, Seq<u8>)>,
    after: Seq<(Seq<char>, Seq<u8>)>,
    wants_upgrade: bool,
    name: Seq<char>,
)
    requires
        is_prepared(before, after, wants_upgrade),
        !name.contains('\0'),
        forall|v: int|
            0 <= v < headers::values_of(before, "connection"@).len() ==> !headers::names_field(
                #[trigger] headers::values_of(before, "connection"@)[v],
                name,
            ),
    ensures
        headers::values_of(after, "host"@).len() == 0,
        headers::values_of(after, "proxy-authorization"@).len() == 0,
        headers::values_of(after, "proxy-connection"@).len() == 0,
        headers::values_of(after, "transfer-encoding"@).len() == 0,
        wants_upgrade ==> headers::values_of(after, "upgrade"@) == headers::values_of(
            before,
            "upgrade"@,
        ) && headers::values_of(after, "connection"@) == headers::values_of(
            before,
            "connection"@,
        ),
        !wants_upgrade ==> headers::values_of(after, "upgrade"@).len() == 0 && headers::values_of(
            after,
            "connection"@,
        ).len() == 0,
        name != "host"@ && name != "proxy-connection"@ && name != "keep-alive"@ && name
            != "proxy-authenticate"@ && name != "proxy-authorization"@ && name != "te"@ && name
            != "trailer"@ && name != "transfer-encoding"@ && name != "connection"@ && name
            != "upgrade"@ ==> headers::values_of(after, name) == headers::values_of(before, name),
{
    reveal_strlit("host");
    reveal_strlit("upgrade");
    reveal_strlit("connection");
    reveal_strlit("proxy-connection");
    reveal_strlit("keep-alive");
    reveal_strlit("proxy-authenticate");
    reveal_strlit("proxy-authorization");
    reveal_strlit("te");
    reveal_strlit("trailer");
    reveal_strlit("transfer-encoding");
    assert("trailer"@[0] != "upgrade"@[0]);
    assert("keep-alive"@[0] != "connection"@[0]);
    let values = headers::values_of(before, "connection"@);
    if headers::is_listed(headers::connection_tokens(values), name) {
        headers::lemma_listed_is_named(values, name);
    }
}

/// A request asks for another protocol exactly when it has an `Upgrade` field.
pub proof fn law_upgrade_is_wanted_by_its_field(fields: &http::HeaderMap, r: bool)
    requires
        call_ensures(wants_upgrade, (fields,), r),
    ensures
        r <==> exists|i: int|
            0 <= i < headers::header_entries(*fields).len() && (
            #[trigger] headers::header_entries(*fields)[i]).0 == "upgrade"@,
{
    headers::law_values_follow_the_fields(
        headers::header_entries(*fields),
        "upgrade"@,
        Seq::empty(),
        "upgrade"@,
    );
}

/// The record that a request gets holds the request, field by field.
pub proof fn law_new_record_tells_the_request(
    id: u64,
    now_ms: i64,
    head: RequestHead<'_>,
    target: &UriParts,
    fields: &http::HeaderMap,
    r: TransactionCtx,
)
    requires
        call_ensures(request_record, (id, now_ms, head, target, fields), r),
    ensures
        r.data.id == id,
        r.data.started_at_ms == now_ms,
        r.data.method@ == head.method@,
        r.data.scheme@ == head.scheme@,
        r.data.path@ == target.path@,
        r.data.query == target.query,
        r.data.http_version@ == head.http_version@,
        r.data.client_addr@ == head.client_addr@,
        r.data.req_header_blob@ == headers::header_blob(headers::header_entries(*fields)),
        r.data.status is None,
        r.data.error is None,
{
    law_request_record_tells_the_request(
        r.data,
        id,
        now_ms,
        head,
        *target,
        headers::header_entries(*fields),
    );
}

/// A client gets a certificate for the server that it asks for; for the host
/// of its `CONNECT` only where it asks for none.
pub proof fn law_certificate_is_for_the_asked_server(
    server_name: Option<String>,
    fallback: &str,
    r: String,
)
    requires
        call_ensures(certificate_name, (server_name, fallback), r),
    ensures
        server_name is Some ==> r@ == server_name->0@,
        server_name is None ==> r@ == fallback@,
{
}

/// Intercepted clients are offered HTTP/2 first and HTTP/1.1 after it, and
/// nothing else.
pub proof fn law_http2_is_offered_first(r: Vec<Vec<u8>>)
    requires
        call_ensures(alpn_protocols, (), r),
    ensures
        r@.len() == 2,
        r@[0]@ == seq![104u8, 50u8],
        r@[1]@ == seq![104u8, 116u8, 116u8, 112u8, 47u8, 49u8, 46u8, 49u8],
{
    reveal_strlit("h2");
    reveal_strlit("http/1.1");
    lemma_ascii_encoded("h2"@);
    lemma_ascii_encoded("http/1.1"@);
    assert(r@[0]@ =~= seq![104u8, 50u8]);
    assert(r@[1]@ =~= seq![104u8, 116u8, 116u8, 112u8, 47u8, 49u8, 46u8, 49u8]);
}

/// ASCII text is encoded character by character.
proof fn lemma_ascii_encoded(s: Seq<char>)
    requires
        forall|i: int| 0 <= i < s.len() ==> #[trigger] s[i] <= '\u{7f}',
    ensures
        vstd::utf8::encode_utf8(s) == s.map_values(|c: char| c as u8),
    decreases s.len(),
{
    if s.len() == 0 {
        assert(vstd::utf8::encode_utf8(s) =~= s.map_values(|c: char| c as u8));
    } else {
        let rest = s.skip(1);
        assert forall|i: int| 0 <= i < rest.len() implies #[trigger] rest[i] <= '\u{7f}' by {
            assert(rest[i] == s[i + 1]);
        }
        lemma_ascii_encoded(rest);
        text::lemma_encode_concat(seq![s[0]], rest);
        text::lemma_encode_ascii(s[0]);
        assert(s =~= seq![s[0]] + rest);
        assert(vstd::utf8::encode_utf8(s) =~= s.map_values(|c: char| c as u8));
    }
}

/// What is known of a TLS session tells a version and a protocol exactly where
/// they are given: the version with dots, the protocol as the text that it is.
pub proof fn law_session_tells_what_was_negotiated(
    version: &Option<String>,
    alpn: &Option<Vec<u8>>,
    r: TlsMeta,
)
    requires
        call_ensures(tls_meta, (version, alpn), r),
    ensures
        r.version is Some <==> version is Some,
        r.alpn is Some <==> alpn is Some,
        version is Some ==> r.version->0@.len() == version->0@.len() && forall|i: int|
            0 <= i < version->0@.len() ==> #[trigger] r.version->0@[i] == (if version->0@[i]
                == '_' {
                '.'
            } else {
                version->0@[i]
            }),
        alpn is Some && vstd::utf8::valid_utf8(alpn->0@) ==> vstd::utf8::encode_utf8(r.alpn->0@)
            == alpn->0@,
{
    if alpn is Some && vstd::utf8::valid_utf8(alpn->0@) {
        vstd::utf8::decode_utf8_encode_utf8(alpn->0@);
    }
}

/// The size of a transaction grows with its body byte by byte, and of an empty
/// one is that of its headers.
pub proof fn law_size_counts_headers_and_body(header_blob: &Vec<u8>, body_total: u64, r: u64)
    requires
        header_blob@.len() + body_total <= u64::MAX,
        call_ensures(recorded_size, (header_blob, body_total), r),
    ensures
        r - body_total == header_blob@.len(),
{
}

/// Finishing a transaction stores, and tells in its last event, all that was
/// recorded of it, the query among it, with the bodies that were captured and
/// the sizes that were counted. It failed exactly where an error was recorded.
pub proof fn law_finishing_stores_the_record(
    duration_ms: Option<u64>,
    req_size: u64,
    resp_size: u64,
    req_cap: CapturedBody,
    resp_cap: CapturedBody,
)
    ensures
        forall|ctx: &mut TransactionCtx, r: Finished|
            #[trigger] call_ensures(
                finish_transaction,
                (ctx, duration_ms, req_size, resp_size, req_cap, resp_cap),
                r,
            ) ==> {
                let tx = r.completed;
                &&& tx.summary.id == ctx.data.id
                &&& tx.summary.started_at_ms == ctx.data.started_at_ms
                &&& tx.summary.kind == ctx.data.kind
                &&& tx.summary.scheme == ctx.data.scheme
                &&& tx.summary.method == ctx.data.method
                &&& tx.summary.host == ctx.data.host
                &&& tx.summary.path == ctx.data.path
                &&& tx.summary.query == ctx.data.query
                &&& tx.summary.status == ctx.data.status
                &&& tx.summary.content_type == ctx.data.content_type
                &&& tx.summary.error == ctx.data.error
                &&& tx.summary.state is Failed <==> ctx.data.error is Some
                &&& tx.summary.state is Completed <==> ctx.data.error is None
                &&& tx.summary.duration_ms == duration_ms
                &&& tx.summary.req_size == req_size
                &&& tx.summary.resp_size == resp_size
                &&& tx.http_version == ctx.data.http_version
                &&& tx.client_addr == ctx.data.client_addr
                &&& tx.tls_version == ctx.data.tls_version
                &&& tx.alpn == ctx.data.alpn
                &&& tx.tags == ctx.data.tags
                &&& tx.req_header_blob@ == ctx.data.req_header_blob@
                &&& tx.resp_header_blob@ == ctx.data.resp_header_blob@
                &&& tx.req_body == req_cap.bytes
                &&& tx.req_body_total == req_cap.total
                &&& tx.req_body_truncated == req_cap.truncated
                &&& tx.resp_body == resp_cap.bytes
                &&& tx.resp_body_total == resp_cap.total
                &&& tx.resp_body_truncated == resp_cap.truncated
                &&& r.event == ProxyEvent::TransactionCompleted(tx.summary)
            },
{
}

/// A request that could not be sent is answered as a gateway error with what
/// is recorded of it, and nothing else of its record changes.
pub proof fn law_failed_request_is_answered_and_recorded(err: &str)
    ensures
        forall|ctx: &mut TransactionCtx, r: TextReply|
            #[trigger] call_ensures(upstream_failed, (ctx, err), r) ==> {
                &&& r.status == 502
                &&& final(ctx).data.error is Some
                &&& text::ends(final(ctx).data.error->0@, err@)
                &&& r.body@ == final(ctx).data.error->0@ + seq!['\n']
                &&& final(ctx).data == (TxData {
                    error: final(ctx).data.error,
                    ..ctx.data
                })
            },
{
    reveal_strlit("\n");
    assert("\n"@ =~= seq!['\n']);
    let t = upstream_error(err@);
    assert(t.skip(t.len() - err@.len()) =~= err@);
}

/// Only a switch of protocols, told by status 101, is recorded as such and
/// passes with all of its headers.
pub proof fn law_only_status_101_switches(status: u16)
    ensures
        forall|ctx: &mut TransactionCtx, fields: &mut http::HeaderMap, r: Reply|
            #[trigger] call_ensures(upstream_replied, (ctx, status, fields), r) ==> {
                &&& r is Switch <==> status == 101
                &&& status == 101 ==> *final(fields) == *fields && final(ctx).data.kind@
                    == "ws-upgrade"@
                &&& status != 101 ==> *final(ctx) == *ctx
                &&& status != 101 ==> headers::values_of(
                    headers::header_entries(*final(fields)),
                    "transfer-encoding"@,
                ).len() == 0
                &&& final(ctx).data.query == ctx.data.query
                &&& final(ctx).data.method == ctx.data.method
                &&& final(ctx).data.host == ctx.data.host
                &&& final(ctx).data.path == ctx.data.path
            },
{
}

/// A tunnel's bytes are counted, up and down, however it ended; only one that
/// broke is recorded with an error, which ends with the cause.
pub proof fn law_tunnel_bytes_are_counted(outcome: Result<TunnelBytes, TunnelError>)
    ensures
        forall|ctx: &mut TransactionCtx, r: TunnelBytes|
            #[trigger] call_ensures(tunnel_ended, (ctx, outcome), r) ==> {
                &&& outcome is Ok ==> r.sent == outcome->Ok_0.sent && r.received
                    == outcome->Ok_0.received && final(ctx).data == ctx.data
                &&& outcome is Err ==> r.sent == outcome->Err_0.bytes.sent && r.received
                    == outcome->Err_0.bytes.received
                &&& outcome is Err ==> final(ctx).data.error is Some && text::ends(
                    final(ctx).data.error->0@,
                    outcome->Err_0.message@,
                )
                &&& final(ctx).data == (TxData {
                    error: final(ctx).data.error,
                    ..ctx.data
                })
            },
{
    if outcome is Err {
        let m = outcome->Err_0.message@;
        let t = "tunnel error: "@ + m;
        assert(t.skip(t.len() - m.len()) =~= m);
    }
}

/// A client that refuses the certificate for a host makes that host tunneled
/// from then on, leaves every other host and the settings alone, and is
/// recorded with the host and its reason.
pub proof fn law_refusal_is_recorded_and_remembered(
    id: u64,
    now_ms: i64,
    host: &str,
    port: u16,
    peer: &str,
    err: &str,
    other: Seq<char>,
)
    ensures
        forall|engine: &mut Engine, r: TransactionCtx|
            #[trigger] call_ensures(
                Engine::record_handshake_failure,
                (engine, id, now_ms, host, port, peer, err),
                r,
            ) ==> {
                &&& final(engine).dynamic_passthrough@.contains(host@)
                &&& other != host@ ==> (final(engine).dynamic_passthrough@.contains(other)
                    <==> engine.dynamic_passthrough@.contains(other))
                &&& final(engine).settings == engine.settings
                &&& r.data.id == id
                &&& r.data.method@ == "CONNECT"@
                &&& r.data.error is Some
                &&& text::contains_text(r.data.error->0@, err@)
                &&& text::contains_text(
                    r.data.error->0@,
                    host@ + ":"@ + text::decimal_of(port as nat),
                )
            },
{
    law_rejection_names_host_and_reason(host@, port, err@);
}

/// Each identifier is one more than the one before it, and the first is one
/// more than the highest in the store.
pub proof fn law_next_id_is_one_more(max_id_at_open: u64, ids: TxIds)
    requires
        max_id_at_open < u64::MAX,
        call_ensures(TxIds::new, (max_id_at_open,), ids),
    ensures
        ids.upcoming() == max_id_at_open + 1,
        forall|ids: &mut TxIds, r: u64|
            #[trigger] call_ensures(TxIds::next_id, (ids,), r) ==> r == ids.upcoming() && (r
                < u64::MAX ==> final(ids).upcoming() == r + 1),
{
}

} // verus!
