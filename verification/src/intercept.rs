//! What is known of a transaction while it runs, and the recorder, the
//! interceptor that observes everything, modifies nothing and emits live
//! events for the UI.

use vstd::prelude::*;

use crate::events::{ProxyEvent, TransactionSummary, TxState};
use crate::headers;
use crate::text;

verus! {

/// Mutable per-transaction state shared between the engine, interceptors and
/// the finalize task.
#[derive(Debug)]
pub struct TxData {
    pub id: u64,
    pub started_at_ms: i64,
    /// "http" | "tunnel" | "ws-upgrade"
    pub kind: String,
    pub scheme: String,
    pub method: String,
    pub host: String,
    pub path: String,
    pub query: Option<String>,
    pub http_version: String,
    pub client_addr: String,
    pub tls_version: Option<String>,
    pub alpn: Option<String>,
    pub status: Option<u16>,
    pub content_type: Option<String>,
    pub error: Option<String>,
    pub req_header_blob: Vec<u8>,
    pub resp_header_blob: Vec<u8>,
    /// Interceptor annotations (e.g. which rewrite rule fired) as the text of
    /// a JSON object, surfaced in the UI and stored alongside the transaction.
    pub tags: String,
}

/// Nothing is known of the transaction yet.
pub open spec fn is_blank(d: TxData) -> bool {
    &&& d.id == 0
    &&& d.started_at_ms == 0
    &&& d.kind@ == ""@
    &&& d.scheme@ == ""@
    &&& d.method@ == ""@
    &&& d.host@ == ""@
    &&& d.path@ == ""@
    &&& d.query is None
    &&& d.http_version@ == ""@
    &&& d.client_addr@ == ""@
    &&& d.tls_version is None
    &&& d.alpn is None
    &&& d.status is None
    &&& d.content_type is None
    &&& d.error is None
    &&& d.req_header_blob@ == Seq::<u8>::empty()
    &&& d.resp_header_blob@ == Seq::<u8>::empty()
    &&& d.tags@ == "{}"@
}

impl Default for TxData {
    fn default() -> (r: Self)
        ensures
            is_blank(r),
    {
        TxData {
            id: 0,
            started_at_ms: 0,
            kind: "".to_owned(),
            scheme: "".to_owned(),
            method: "".to_owned(),
            host: "".to_owned(),
            path: "".to_owned(),
            query: None,
            http_version: "".to_owned(),
            client_addr: "".to_owned(),
            tls_version: None,
            alpn: None,
            status: None,
            content_type: None,
            error: None,
            req_header_blob: Vec::new(),
            resp_header_blob: Vec::new(),
            tags: "{}".to_owned(),
        }
    }
}

/// The summary of a transaction of which `d` is known.
pub open spec fn summary_of(
    d: TxData,
    state: TxState,
    duration_ms: Option<u64>,
    req_size: u64,
    resp_size: u64,
) -> TransactionSummary {
    TransactionSummary {
        id: d.id,
        started_at_ms: d.started_at_ms,
        kind: d.kind,
        scheme: d.scheme,
        method: d.method,
        host: d.host,
        path: d.path,
        query: d.query,
        status: d.status,
        duration_ms,
        req_size,
        resp_size,
        content_type: d.content_type,
        error: d.error,
        state,
    }
}

/// A transaction on its way through the engine.
#[derive(Debug)]
pub struct TransactionCtx {
    pub data: TxData,
}

impl TransactionCtx {
    pub fn new(data: TxData) -> (r: Self)
        ensures
            r.data == data,
    {
        TransactionCtx { data }
    }

    /// The summary before anything is known of duration and sizes.
    pub fn summary(&self, state: TxState) -> (r: TransactionSummary)
        ensures
            r == summary_of(self.data, state, None, 0, 0),
            r.id == self.data.id,
            r.started_at_ms == self.data.started_at_ms,
            r.kind == self.data.kind,
            r.scheme == self.data.scheme,
            r.method == self.data.method,
            r.host == self.data.host,
            r.path == self.data.path,
            r.query == self.data.query,
            r.status == self.data.status,
            r.content_type == self.data.content_type,
            r.error == self.data.error,
            r.state == state,
            r.duration_ms is None,
            r.req_size == 0,
            r.resp_size == 0,
    {
        self.summary_sized(state, None, 0, 0)
    }

    /// The summary with duration and sizes.
    pub fn summary_sized(
        &self,
        state: TxState,
        duration_ms: Option<u64>,
        req_size: u64,
        resp_size: u64,
    ) -> (r: TransactionSummary)
        ensures
            r == summary_of(self.data, state, duration_ms, req_size, resp_size),
            r.id == self.data.id,
            r.started_at_ms == self.data.started_at_ms,
            r.kind == self.data.kind,
            r.scheme == self.data.scheme,
            r.method == self.data.method,
            r.host == self.data.host,
            r.path == self.data.path,
            r.query == self.data.query,
            r.status == self.data.status,
            r.content_type == self.data.content_type,
            r.error == self.data.error,
            r.state == state,
            r.duration_ms == duration_ms,
            r.req_size == req_size,
            r.resp_size == resp_size,
    {
        let d = &self.data;
        TransactionSummary {
            id: d.id,
            started_at_ms: d.started_at_ms,
            kind: d.kind.clone(),
            scheme: d.scheme.clone(),
            method: d.method.clone(),
            host: d.host.clone(),
            path: d.path.clone(),
            query: text::clone_text(&d.query),
            status: d.status,
            duration_ms,
            req_size,
            resp_size,
            content_type: text::clone_text(&d.content_type),
            error: text::clone_text(&d.error),
            state,
        }
    }
}

/// The interceptor that observes everything and modifies nothing. Captured
/// bodies and the final store write are handled by the finalize step, which
/// knows when bodies complete.
pub struct Recorder;

impl Recorder {
    /// A request enters: the event that announces the transaction.
    pub fn on_request(&self, ctx: &TransactionCtx) -> (r: ProxyEvent)
        ensures
            r == ProxyEvent::TransactionStarted(
                summary_of(ctx.data, TxState::Active, None, 0, 0),
            ),
    {
        ProxyEvent::TransactionStarted(ctx.summary(TxState::Active))
    }

    /// A response returns: its status, content type and headers are noted,
    /// and nothing else changes. The event that tells of it.
    pub fn on_response(
        &self,
        ctx: &mut TransactionCtx,
        status: u16,
        headers: &http::HeaderMap,
    ) -> (r: ProxyEvent)
        ensures
            final(ctx).data == (TxData {
                status: Some(status),
                content_type: final(ctx).data.content_type,
                resp_header_blob: final(ctx).data.resp_header_blob,
                ..old(ctx).data
            }),
            final(ctx).data.resp_header_blob@ == headers::header_blob(
                headers::header_entries(*headers),
            ),
            headers::valid_entries(headers::header_entries(*headers)),
            ({
                let values = headers::values_of(
                    headers::header_entries(*headers),
                    "content-type"@,
                );
                match final(ctx).data.content_type {
                    Some(s) => {
                        &&& values.len() > 0
                        &&& headers::is_text(values[0])
                        &&& s@ == headers::value_text(values[0])
                    },
                    None => values.len() == 0 || !headers::is_text(values[0]),
                }
            }),
            r == ProxyEvent::TransactionUpdated(
                summary_of(final(ctx).data, TxState::Active, None, 0, 0),
            ),
    {
        ctx.data.status = Some(status);
        ctx.data.content_type = headers::header_text(headers, "content-type");
        ctx.data.resp_header_blob = headers::serialize_headers(headers);
        proof {
            headers::lemma_names_found();
        }
        ProxyEvent::TransactionUpdated(ctx.summary(TxState::Active))
    }
}

/// A summary tells what was recorded of a transaction: each of its fields is
/// the one of the record that has its name, and the state, the duration and
/// the sizes are those that it was asked for.
pub proof fn law_summary_tells_the_record(
    d: TxData,
    state: TxState,
    duration_ms: Option<u64>,
    req_size: u64,
    resp_size: u64,
)
    ensures
        ({
            let s = summary_of(d, state, duration_ms, req_size, resp_size);
            &&& s.id == d.id
            &&& s.started_at_ms == d.started_at_ms
            &&& s.kind == d.kind
            &&& s.scheme == d.scheme
            &&& s.method == d.method
            &&& s.host == d.host
            &&& s.path == d.path
            &&& s.query == d.query
            &&& s.status == d.status
            &&& s.content_type == d.content_type
            &&& s.error == d.error
            &&& s.state == state
            &&& s.duration_ms == duration_ms
            &&& s.req_size == req_size
            &&& s.resp_size == resp_size
        }),
{
}

/// The event that announces a transaction tells all that is recorded of it,
/// and that it is active.
pub proof fn law_start_tells_the_record(recorder: &Recorder, ctx: &TransactionCtx, r: ProxyEvent)
    requires
        call_ensures(Recorder::on_request, (recorder, ctx), r),
    ensures
        r is TransactionStarted,
        ({
            let s = r->TransactionStarted_0;
            &&& s.id == ctx.data.id
            &&& s.started_at_ms == ctx.data.started_at_ms
            &&& s.kind == ctx.data.kind
            &&& s.scheme == ctx.data.scheme
            &&& s.method == ctx.data.method
            &&& s.host == ctx.data.host
            &&& s.path == ctx.data.path
            &&& s.query == ctx.data.query
            &&& s.status == ctx.data.status
            &&& s.content_type == ctx.data.content_type
            &&& s.error == ctx.data.error
            &&& s.state == TxState::Active
            &&& s.duration_ms is None
        }),
{
}

/// Two summaries of one record differ in nothing but the state, the duration
/// and the sizes that they were asked for.
pub proof fn law_summaries_agree(
    ctx: &TransactionCtx,
    state: TxState,
    state2: TxState,
    duration_ms: Option<u64>,
    req_size: u64,
    resp_size: u64,
    a: TransactionSummary,
    b: TransactionSummary,
)
    requires
        call_ensures(TransactionCtx::summary, (ctx, state), a),
        call_ensures(
            TransactionCtx::summary_sized,
            (ctx, state2, duration_ms, req_size, resp_size),
            b,
        ),
    ensures
        b == (TransactionSummary {
            state: state2,
            duration_ms,
            req_size,
            resp_size,
            ..a
        }),
        b.query == ctx.data.query,
{
}

/// A response is noted by its status, its content type and its headers, and
/// changes nothing that was recorded of the request; the event that tells of it
/// carries the request's query and all else that was recorded.
pub proof fn law_response_keeps_the_request(
    recorder: &Recorder,
    status: u16,
    headers: &http::HeaderMap,
)
    ensures
        forall|ctx: &mut TransactionCtx, r: ProxyEvent|
            #[trigger] call_ensures(Recorder::on_response, (recorder, ctx, status, headers), r) ==> {
                let s = r->TransactionUpdated_0;
                &&& final(ctx).data.status == Some(status)
                &&& final(ctx).data.id == ctx.data.id
                &&& final(ctx).data.started_at_ms == ctx.data.started_at_ms
                &&& final(ctx).data.kind == ctx.data.kind
                &&& final(ctx).data.scheme == ctx.data.scheme
                &&& final(ctx).data.method == ctx.data.method
                &&& final(ctx).data.host == ctx.data.host
                &&& final(ctx).data.path == ctx.data.path
                &&& final(ctx).data.query == ctx.data.query
                &&& final(ctx).data.error == ctx.data.error
                &&& final(ctx).data.req_header_blob == ctx.data.req_header_blob
                &&& final(ctx).data.tags == ctx.data.tags
                &&& final(ctx).data.resp_header_blob@ == headers::header_blob(
                    headers::header_entries(*headers),
                )
                &&& r is TransactionUpdated
                &&& s.id == ctx.data.id
                &&& s.method == ctx.data.method
                &&& s.host == ctx.data.host
                &&& s.path == ctx.data.path
                &&& s.query == ctx.data.query
                &&& s.status == Some(status)
                &&& s.content_type == final(ctx).data.content_type
                &&& s.state == TxState::Active
            },
{
}

} // verus!
