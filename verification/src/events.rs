//! What the core tells the outside: event payloads, transaction summaries and
//! details, status types, and the filter of history queries.

use vstd::prelude::*;

use crate::text;

verus! {

/// Lifecycle state of a recorded transaction.
#[derive(Debug, Clone, Copy, PartialEq, Eq, Structural)]
pub enum TxState {
    Active,
    Completed,
    Failed,
}

/// Lightweight row for the traffic table. Carried by events and list queries;
/// bodies and full headers are fetched separately via transaction detail.
#[derive(Debug)]
pub struct TransactionSummary {
    pub id: u64,
    pub started_at_ms: i64,
    /// "http" | "tunnel" | "ws-upgrade"
    pub kind: String,
    pub scheme: String,
    pub method: String,
    pub host: String,
    pub path: String,
    pub query: Option<String>,
    pub status: Option<u16>,
    pub duration_ms: Option<u64>,
    pub req_size: u64,
    pub resp_size: u64,
    pub content_type: Option<String>,
    pub error: Option<String>,
    pub state: TxState,
}

impl Clone for TransactionSummary {
    fn clone(&self) -> (r: Self)
        ensures
            r == *self,
    {
        TransactionSummary {
            id: self.id,
            started_at_ms: self.started_at_ms,
            kind: self.kind.clone(),
            scheme: self.scheme.clone(),
            method: self.method.clone(),
            host: self.host.clone(),
            path: self.path.clone(),
            query: text::clone_text(&self.query),
            status: self.status,
            duration_ms: self.duration_ms,
            req_size: self.req_size,
            resp_size: self.resp_size,
            content_type: text::clone_text(&self.content_type),
            error: text::clone_text(&self.error),
            state: self.state,
        }
    }
}

/// Full transaction detail for the inspector pane.
#[derive(Debug)]
pub struct TransactionDetail {
    pub summary: TransactionSummary,
    pub http_version: String,
    pub client_addr: String,
    pub tls_version: Option<String>,
    pub alpn: Option<String>,
    pub req_headers: Vec<(String, String)>,
    pub resp_headers: Vec<(String, String)>,
    pub req_body_base64: String,
    pub req_body_truncated: bool,
    pub req_body_total: u64,
    pub resp_body_base64: String,
    pub resp_body_truncated: bool,
    pub resp_body_total: u64,
    /// Interceptor annotations, as JSON text.
    pub tags: String,
}

/// Current proxy service status.
#[derive(Debug)]
pub struct ProxyStatus {
    pub running: bool,
    pub addr: Option<String>,
    pub port: Option<u16>,
    pub system_proxy_enabled: bool,
}

impl Clone for ProxyStatus {
    fn clone(&self) -> (r: Self)
        ensures
            r == *self,
    {
        ProxyStatus {
            running: self.running,
            addr: text::clone_text(&self.addr),
            port: self.port,
            system_proxy_enabled: self.system_proxy_enabled,
        }
    }
}

/// CA generation/trust state for the onboarding flow.
#[derive(Debug)]
pub struct CaState {
    pub generated: bool,
    pub cert_path: Option<String>,
    /// None = unknown (non-macOS or check failed), Some(bool) = trust status.
    pub trusted: Option<bool>,
}

impl Clone for CaState {
    fn clone(&self) -> (r: Self)
        ensures
            r == *self,
    {
        CaState {
            generated: self.generated,
            cert_path: text::clone_text(&self.cert_path),
            trusted: self.trusted,
        }
    }
}

/// Events pushed to all subscribers. Summaries only, no bodies.
#[derive(Debug)]
pub enum ProxyEvent {
    TransactionStarted(TransactionSummary),
    TransactionUpdated(TransactionSummary),
    TransactionCompleted(TransactionSummary),
    ProxyState(ProxyStatus),
    CaState(CaState),
}

impl Clone for ProxyEvent {
    fn clone(&self) -> (r: Self)
        ensures
            r == *self,
    {
        match self {
            ProxyEvent::TransactionStarted(s) => ProxyEvent::TransactionStarted(s.clone()),
            ProxyEvent::TransactionUpdated(s) => ProxyEvent::TransactionUpdated(s.clone()),
            ProxyEvent::TransactionCompleted(s) => ProxyEvent::TransactionCompleted(s.clone()),
            ProxyEvent::ProxyState(s) => ProxyEvent::ProxyState(s.clone()),
            ProxyEvent::CaState(s) => ProxyEvent::CaState(s.clone()),
        }
    }
}

/// Filter for querying transaction history from the store.
#[derive(Debug, Clone)]
pub struct QueryFilter {
    /// Substring match against host and path.
    pub search: Option<String>,
    pub host: Option<String>,
    pub method: Option<String>,
    pub status: Option<u16>,
    /// Return rows with id < before_id (for paging backwards).
    pub before_id: Option<u64>,
    pub limit: Option<u32>,
}

impl Default for QueryFilter {
    fn default() -> (r: Self)
        ensures
            r == (QueryFilter {
                search: None,
                host: None,
                method: None,
                status: None,
                before_id: None,
                limit: None,
            }),
    {
        QueryFilter {
            search: None,
            host: None,
            method: None,
            status: None,
            before_id: None,
            limit: None,
        }
    }
}

} // verus!
