//! The transaction store: what is written of a finished transaction, where
//! its bodies go, how it is read back, and what is dropped when the session
//! grows too long.

use vstd::prelude::*;
use vstd::string::*;
use vstd::utf8::*;

use crate::encode;
use crate::events::{QueryFilter, TransactionDetail, TransactionSummary, TxState};
use crate::headers;
use crate::text;

verus! {

/// Bodies up to this size live in the `bodies` table; larger ones spill to
/// files in the blob directory.
pub const INLINE_BODY_LIMIT: usize = 262_144;

/// Retention cap, enforced by background pruning.
pub const MAX_TRANSACTIONS: u64 = 50_000;

/// Retention cap on what the rows, inline bodies and blobs of a session take,
/// enforced by background pruning: 2 GB.
pub const MAX_STORED_BYTES: u64 = 2_000_000_000;

/// How many inserts may pass between two prunings.
pub const PRUNE_EVERY: u64 = 500;

/// The most requests that are served as one batch.
pub const BATCH_LIMIT: usize = 256;

/// The database file under the data directory.
pub const DATABASE_FILE: &'static str = "session.db";

/// The directory of spilled bodies under the data directory.
pub const BLOB_DIR: &'static str = "blobs";

/// The tables of the database.
pub const SCHEMA: &'static str = "
CREATE TABLE IF NOT EXISTS transactions (
  id                  INTEGER PRIMARY KEY,
  started_at          INTEGER NOT NULL,
  duration_ms         INTEGER,
  kind                TEXT NOT NULL,
  scheme              TEXT NOT NULL,
  method              TEXT NOT NULL,
  host                TEXT NOT NULL,
  path                TEXT NOT NULL,
  query               TEXT,
  http_version        TEXT NOT NULL DEFAULT '',
  status              INTEGER,
  req_header_blob     BLOB,
  resp_header_blob    BLOB,
  req_body_ref        TEXT NOT NULL DEFAULT 'none',
  resp_body_ref       TEXT NOT NULL DEFAULT 'none',
  req_body_total      INTEGER NOT NULL DEFAULT 0,
  resp_body_total     INTEGER NOT NULL DEFAULT 0,
  req_body_truncated  INTEGER NOT NULL DEFAULT 0,
  resp_body_truncated INTEGER NOT NULL DEFAULT 0,
  req_size            INTEGER NOT NULL DEFAULT 0,
  resp_size           INTEGER NOT NULL DEFAULT 0,
  client_addr         TEXT NOT NULL DEFAULT '',
  tls_version         TEXT,
  alpn                TEXT,
  content_type        TEXT,
  error               TEXT,
  tags                TEXT NOT NULL DEFAULT '{}'
);
CREATE INDEX IF NOT EXISTS idx_tx_started ON transactions(started_at);
CREATE INDEX IF NOT EXISTS idx_tx_host ON transactions(host);
CREATE TABLE IF NOT EXISTS bodies (
  tx_id INTEGER NOT NULL,
  kind  TEXT NOT NULL,
  data  BLOB NOT NULL,
  PRIMARY KEY (tx_id, kind)
);
";

/// Inserts or replaces an inline body: transaction, kind, data.
pub const INSERT_BODY: &'static str = "INSERT OR REPLACE INTO bodies (tx_id, kind, data) VALUES (?1, ?2, ?3)";

/// Inserts or replaces a transaction, its columns in the order of the table.
pub const INSERT_TRANSACTION: &'static str = "INSERT OR REPLACE INTO transactions (
  id, started_at, duration_ms, kind, scheme, method, host, path, query,
  http_version, status, req_header_blob, resp_header_blob,
  req_body_ref, resp_body_ref, req_body_total, resp_body_total,
  req_body_truncated, resp_body_truncated, req_size, resp_size,
  client_addr, tls_version, alpn, content_type, error, tags
) VALUES (?1,?2,?3,?4,?5,?6,?7,?8,?9,?10,?11,?12,?13,?14,?15,?16,?17,?18,?19,?20,?21,?22,?23,?24,?25,?26,?27)";

/// The transaction of an identifier: the columns of its summary, then the
/// others.
pub const SELECT_TRANSACTION: &'static str = "SELECT
  id, started_at, duration_ms, kind, scheme, method, host, path, query,
  status, req_size, resp_size, content_type, error,
  http_version, client_addr, tls_version, alpn,
  req_header_blob, resp_header_blob, req_body_ref, resp_body_ref,
  req_body_total, resp_body_total, req_body_truncated, resp_body_truncated, tags
FROM transactions WHERE id = ?1";

/// An inline body: transaction, kind.
pub const SELECT_BODY: &'static str = "SELECT data FROM bodies WHERE tx_id = ?1 AND kind = ?2";

/// The highest identifier in the store, or 0.
pub const SELECT_MAX_ID: &'static str = "SELECT COALESCE(MAX(id), 0) FROM transactions";

/// What each row takes, by identifier: the bytes of its texts and headers, and
/// eight for each of its numbers.
pub const SELECT_ROW_SIZES: &'static str = "SELECT id, 80
  + LENGTH(CAST(kind AS BLOB)) + LENGTH(CAST(scheme AS BLOB))
  + LENGTH(CAST(method AS BLOB)) + LENGTH(CAST(host AS BLOB))
  + LENGTH(CAST(path AS BLOB)) + COALESCE(LENGTH(CAST(query AS BLOB)), 0)
  + LENGTH(CAST(http_version AS BLOB)) + LENGTH(CAST(client_addr AS BLOB))
  + COALESCE(LENGTH(CAST(tls_version AS BLOB)), 0)
  + COALESCE(LENGTH(CAST(alpn AS BLOB)), 0)
  + COALESCE(LENGTH(CAST(content_type AS BLOB)), 0)
  + COALESCE(LENGTH(CAST(error AS BLOB)), 0)
  + COALESCE(LENGTH(req_header_blob), 0) + COALESCE(LENGTH(resp_header_blob), 0)
  + LENGTH(CAST(req_body_ref AS BLOB)) + LENGTH(CAST(resp_body_ref AS BLOB))
  + LENGTH(CAST(tags AS BLOB))
FROM transactions";

/// What each inline body takes, by the identifier of its transaction.
pub const SELECT_BODY_SIZES: &'static str = "SELECT tx_id, LENGTH(data) FROM bodies";

pub const DELETE_TRANSACTIONS: &'static str = "DELETE FROM transactions";

pub const DELETE_BODIES: &'static str = "DELETE FROM bodies";

pub const DELETE_TRANSACTIONS_BELOW: &'static str = "DELETE FROM transactions WHERE id < ?1";

pub const DELETE_BODIES_BELOW: &'static str = "DELETE FROM bodies WHERE tx_id < ?1";

/// Everything known about a finished transaction, ready to persist.
#[derive(Debug)]
pub struct CompletedTx {
    pub summary: TransactionSummary,
    pub http_version: String,
    pub client_addr: String,
    pub tls_version: Option<String>,
    pub alpn: Option<String>,
    pub req_header_blob: Vec<u8>,
    pub resp_header_blob: Vec<u8>,
    pub req_body: Vec<u8>,
    pub req_body_total: u64,
    pub req_body_truncated: bool,
    pub resp_body: Vec<u8>,
    pub resp_body_total: u64,
    pub resp_body_truncated: bool,
    /// Interceptor annotations, as JSON text.
    pub tags: String,
}

/// The columns of a row that make up its summary.
#[derive(Debug)]
pub struct SummaryRow {
    pub id: u64,
    pub started_at: i64,
    pub duration_ms: Option<u64>,
    pub kind: String,
    pub scheme: String,
    pub method: String,
    pub host: String,
    pub path: String,
    pub query: Option<String>,
    pub status: Option<u16>,
    pub req_size: u64,
    pub resp_size: u64,
    pub content_type: Option<String>,
    pub error: Option<String>,
}

/// One row of the `transactions` table.
#[derive(Debug)]
pub struct TransactionRow {
    pub summary: SummaryRow,
    pub http_version: String,
    pub client_addr: String,
    pub tls_version: Option<String>,
    pub alpn: Option<String>,
    pub req_header_blob: Option<Vec<u8>>,
    pub resp_header_blob: Option<Vec<u8>>,
    pub req_body_ref: String,
    pub resp_body_ref: String,
    pub req_body_total: u64,
    pub resp_body_total: u64,
    pub req_body_truncated: bool,
    pub resp_body_truncated: bool,
    pub tags: String,
}

/// The bytes of a text.
pub open spec fn text_bytes(s: Seq<char>) -> nat {
    encode_utf8(s).len()
}

/// The bytes of a text that may be absent.
pub open spec fn optional_bytes(s: Option<String>) -> nat {
    match s {
        Some(s) => text_bytes(s@),
        None => 0,
    }
}

/// What a row takes: the bytes of its texts and headers, and eight for each of
/// its numbers.
pub open spec fn row_bytes(row: TransactionRow) -> nat {
    let s = row.summary;
    80 + text_bytes(s.kind@) + text_bytes(s.scheme@) + text_bytes(s.method@) + text_bytes(s.host@)
        + text_bytes(s.path@) + optional_bytes(s.query) + text_bytes(row.http_version@)
        + text_bytes(row.client_addr@) + optional_bytes(row.tls_version) + optional_bytes(row.alpn)
        + optional_bytes(s.content_type) + optional_bytes(s.error) + bytes_or_none(
        row.req_header_blob,
    ).len() + bytes_or_none(row.resp_header_blob).len() + text_bytes(row.req_body_ref@)
        + text_bytes(row.resp_body_ref@) + text_bytes(row.tags@)
}

/// Which of a transaction's bodies.
#[derive(Debug, Clone, Copy, PartialEq, Eq, Structural)]
pub enum BodyKind {
    Req,
    Resp,
}

/// The name of a kind of body in the database and in blob names.
pub open spec fn kind_name(kind: BodyKind) -> Seq<char> {
    match kind {
        BodyKind::Req => "req"@,
        BodyKind::Resp => "resp"@,
    }
}

/// The name of the file that holds a spilled body.
pub open spec fn blob_name(id: u64, kind: BodyKind) -> Seq<char> {
    text::decimal_of(id as nat) + "."@ + kind_name(kind)
}

/// Where a body is kept.
#[derive(Debug)]
pub enum BodyPlace {
    /// Nowhere: there is none.
    Nowhere,
    /// In the `bodies` table.
    Inline,
    /// In the blob of this name.
    File(String),
}

/// Where a body is kept, in terms of texts.
pub enum Place {
    Nowhere,
    Inline,
    File(Seq<char>),
}

impl View for BodyPlace {
    type V = Place;

    open spec fn view(&self) -> Place {
        match self {
            BodyPlace::Nowhere => Place::Nowhere,
            BodyPlace::Inline => Place::Inline,
            BodyPlace::File(name) => Place::File(name@),
        }
    }
}

/// Where a body of this length is put.
pub open spec fn place_for(id: u64, kind: BodyKind, len: nat) -> Place {
    if len == 0 {
        Place::Nowhere
    } else if len <= INLINE_BODY_LIMIT {
        Place::Inline
    } else {
        Place::File(blob_name(id, kind))
    }
}

/// How a row refers to a place.
pub open spec fn ref_text(place: Place) -> Seq<char> {
    match place {
        Place::Nowhere => "none"@,
        Place::Inline => "inline"@,
        Place::File(name) => "file:"@ + name,
    }
}

/// The place that a row refers to. Text that no place is referred to by
/// refers to none.
pub open spec fn place_of_ref(r: Seq<char>) -> Place {
    if r == "none"@ {
        Place::Nowhere
    } else if r == "inline"@ {
        Place::Inline
    } else if text::begins(r, "file:"@) {
        Place::File(r.skip(5))
    } else {
        Place::Nowhere
    }
}

/// The name of a kind of body.
pub fn body_kind_name(kind: BodyKind) -> (r: String)
    ensures
        r@ == kind_name(kind),
{
    match kind {
        BodyKind::Req => "req".to_owned(),
        BodyKind::Resp => "resp".to_owned(),
    }
}

/// Where a body goes and how its row refers to it.
#[derive(Debug)]
pub struct BodyPlan {
    pub body_ref: String,
    pub place: BodyPlace,
}

/// Where a body is put, and the reference to it.
pub fn body_ref_and_store(id: u64, kind: BodyKind, body: &[u8]) -> (r: BodyPlan)
    ensures
        r.place@ == place_for(id, kind, body@.len()),
        r.body_ref@ == ref_text(place_for(id, kind, body@.len())),
{
    let n: usize = body.len();
    if n == 0 {
        return BodyPlan { body_ref: "none".to_owned(), place: BodyPlace::Nowhere };
    }
    if n <= INLINE_BODY_LIMIT {
        return BodyPlan { body_ref: "inline".to_owned(), place: BodyPlace::Inline };
    }
    let mut name = text::decimal(id);
    name.append(".");
    let kind_text = body_kind_name(kind);
    name.append(kind_text.as_str());
    let mut body_ref = "file:".to_owned();
    body_ref.append(name.as_str());
    BodyPlan { body_ref, place: BodyPlace::File(name) }
}

/// Where the body is that a row refers to.
pub fn load_body(body_ref: &str) -> (r: BodyPlace)
    ensures
        r@ == place_of_ref(body_ref@),
{
    if text::same_text(body_ref, "none") {
        BodyPlace::Nowhere
    } else if text::same_text(body_ref, "inline") {
        BodyPlace::Inline
    } else if text::starts_with(body_ref, "file:") {
        proof {
            reveal_strlit("file:");
        }
        BodyPlace::File(text::skip_chars(body_ref, 5))
    } else {
        BodyPlace::Nowhere
    }
}

/// A reference is resolved to the place that it was made for.
pub proof fn law_body_ref_resolves(id: u64, kind: BodyKind, len: nat)
    ensures
        place_of_ref(ref_text(place_for(id, kind, len))) == place_for(id, kind, len),
{
    reveal_strlit("none");
    reveal_strlit("inline");
    reveal_strlit("file:");
    let place = place_for(id, kind, len);
    match place {
        Place::Nowhere => {},
        Place::Inline => {
            assert("inline"@[1] != "none"@[1]);
        },
        Place::File(name) => {
            let r = ref_text(place);
            assert(r[0] == 'f');
            assert(r != "none"@ && r != "inline"@);
            assert(r.take(5) =~= "file:"@);
            assert(r.skip(5) =~= name);
        },
    }
}

/// What is written for one finished transaction.
#[derive(Debug)]
pub struct InsertPlan {
    pub row: TransactionRow,
    pub req_place: BodyPlace,
    pub req_body: Vec<u8>,
    pub resp_place: BodyPlace,
    pub resp_body: Vec<u8>,
}

/// The columns that a summary is written to.
pub open spec fn summary_columns(s: TransactionSummary) -> SummaryRow {
    SummaryRow {
        id: s.id,
        started_at: s.started_at_ms,
        duration_ms: s.duration_ms,
        kind: s.kind,
        scheme: s.scheme,
        method: s.method,
        host: s.host,
        path: s.path,
        query: s.query,
        status: s.status,
        req_size: s.req_size,
        resp_size: s.resp_size,
        content_type: s.content_type,
        error: s.error,
    }
}

/// The plan writes all of the transaction.
pub open spec fn writes(tx: CompletedTx, plan: InsertPlan) -> bool {
    let id = tx.summary.id;
    let row = plan.row;
    &&& row.summary == summary_columns(tx.summary)
    &&& row.http_version == tx.http_version
    &&& row.client_addr == tx.client_addr
    &&& row.tls_version == tx.tls_version
    &&& row.alpn == tx.alpn
    &&& row.req_header_blob == Some(tx.req_header_blob)
    &&& row.resp_header_blob == Some(tx.resp_header_blob)
    &&& row.req_body_ref@ == ref_text(place_for(id, BodyKind::Req, tx.req_body@.len()))
    &&& row.resp_body_ref@ == ref_text(place_for(id, BodyKind::Resp, tx.resp_body@.len()))
    &&& row.req_body_total == tx.req_body_total
    &&& row.resp_body_total == tx.resp_body_total
    &&& row.req_body_truncated == tx.req_body_truncated
    &&& row.resp_body_truncated == tx.resp_body_truncated
    &&& row.tags == tx.tags
    &&& plan.req_place@ == place_for(id, BodyKind::Req, tx.req_body@.len())
    &&& plan.req_body == tx.req_body
    &&& plan.resp_place@ == place_for(id, BodyKind::Resp, tx.resp_body@.len())
    &&& plan.resp_body == tx.resp_body
}

/// What is written for a finished transaction.
pub fn insert_plan(tx: CompletedTx) -> (r: InsertPlan)
    ensures
        writes(tx, r),
{
    let s = tx.summary;
    let req = body_ref_and_store(s.id, BodyKind::Req, tx.req_body.as_slice());
    let resp = body_ref_and_store(s.id, BodyKind::Resp, tx.resp_body.as_slice());
    let summary = SummaryRow {
        id: s.id,
        started_at: s.started_at_ms,
        duration_ms: s.duration_ms,
        kind: s.kind,
        scheme: s.scheme,
        method: s.method,
        host: s.host,
        path: s.path,
        query: s.query,
        status: s.status,
        req_size: s.req_size,
        resp_size: s.resp_size,
        content_type: s.content_type,
        error: s.error,
    };
    let row = TransactionRow {
        summary,
        http_version: tx.http_version,
        client_addr: tx.client_addr,
        tls_version: tx.tls_version,
        alpn: tx.alpn,
        req_header_blob: Some(tx.req_header_blob),
        resp_header_blob: Some(tx.resp_header_blob),
        req_body_ref: req.body_ref,
        resp_body_ref: resp.body_ref,
        req_body_total: tx.req_body_total,
        resp_body_total: tx.resp_body_total,
        req_body_truncated: tx.req_body_truncated,
        resp_body_truncated: tx.resp_body_truncated,
        tags: tx.tags,
    };
    InsertPlan {
        row,
        req_place: req.place,
        req_body: tx.req_body,
        resp_place: resp.place,
        resp_body: tx.resp_body,
    }
}

/// What is written for a batch, transaction by transaction.
pub fn insert_batch(batch: Vec<CompletedTx>) -> (r: Vec<InsertPlan>)
    ensures
        r@.len() == batch@.len(),
        forall|i: int| 0 <= i < batch@.len() ==> writes(batch@[i], #[trigger] r@[i]),
{
    let mut out: Vec<InsertPlan> = Vec::new();
    let ghost all = batch@;
    for tx in it: batch
        invariant
            it.seq() == all,
            out@.len() == it.index(),
            forall|i: int| 0 <= i < out@.len() ==> writes(all[i], #[trigger] out@[i]),
    {
        out.push(insert_plan(tx));
    }
    out
}

/// The summary in a row. A transaction with an error failed; every other one
/// completed.
pub open spec fn summary_of_row(row: SummaryRow) -> TransactionSummary {
    TransactionSummary {
        id: row.id,
        started_at_ms: row.started_at,
        kind: row.kind,
        scheme: row.scheme,
        method: row.method,
        host: row.host,
        path: row.path,
        query: row.query,
        status: row.status,
        duration_ms: row.duration_ms,
        req_size: row.req_size,
        resp_size: row.resp_size,
        content_type: row.content_type,
        error: row.error,
        state: if row.error is Some {
            TxState::Failed
        } else {
            TxState::Completed
        },
    }
}

/// The summary in a row.
pub fn row_to_summary(row: SummaryRow) -> (r: TransactionSummary)
    ensures
        r == summary_of_row(row),
{
    let state = if row.error.is_some() {
        TxState::Failed
    } else {
        TxState::Completed
    };
    TransactionSummary {
        id: row.id,
        started_at_ms: row.started_at,
        kind: row.kind,
        scheme: row.scheme,
        method: row.method,
        host: row.host,
        path: row.path,
        query: row.query,
        status: row.status,
        duration_ms: row.duration_ms,
        req_size: row.req_size,
        resp_size: row.resp_size,
        content_type: row.content_type,
        error: row.error,
        state,
    }
}

/// What was read, or nothing where there was nothing to read.
pub open spec fn bytes_or_none(data: Option<Vec<u8>>) -> Seq<u8> {
    match data {
        Some(v) => v@,
        None => Seq::empty(),
    }
}

/// Annotations as they are handed out: those that were stored, or JSON's
/// `null` where what was stored is no JSON.
pub open spec fn tags_text(parsed: Option<Seq<char>>) -> Seq<char> {
    match parsed {
        Some(s) => s,
        None => "null"@,
    }
}

/// Annotations as they are handed out.
pub fn tags_or_null(parsed: Option<String>) -> (r: String)
    ensures
        r@ == tags_text(match parsed {
            Some(s) => Some(s@),
            None => None,
        }),
{
    match parsed {
        Some(s) => s,
        None => "null".to_owned(),
    }
}

/// The detail that a row and the bodies it refers to make up.
pub open spec fn is_detail(
    row: TransactionRow,
    req_body: Seq<u8>,
    resp_body: Seq<u8>,
    d: TransactionDetail,
) -> bool {
    &&& d.summary == summary_of_row(row.summary)
    &&& d.http_version == row.http_version
    &&& d.client_addr == row.client_addr
    &&& d.tls_version == row.tls_version
    &&& d.alpn == row.alpn
    &&& headers::are_fields_of(
        bytes_or_none(row.req_header_blob),
        headers::field_texts(d.req_headers@),
    )
    &&& headers::are_fields_of(
        bytes_or_none(row.resp_header_blob),
        headers::field_texts(d.resp_headers@),
    )
    &&& d.req_body_base64@ == encode::base64_text(req_body)
    &&& d.req_body_truncated == row.req_body_truncated
    &&& d.req_body_total == row.req_body_total
    &&& d.resp_body_base64@ == encode::base64_text(resp_body)
    &&& d.resp_body_truncated == row.resp_body_truncated
    &&& d.resp_body_total == row.resp_body_total
    &&& d.tags@ == tags_text(encode::json_reprinted(row.tags@))
}

/// The header fields in a column.
fn column_headers(blob: &Option<Vec<u8>>) -> (r: Vec<(String, String)>)
    ensures
        headers::are_fields_of(bytes_or_none(*blob), headers::field_texts(r@)),
{
    match blob {
        Some(v) => headers::parse_header_blob(v.as_slice()),
        None => {
            let empty: Vec<u8> = Vec::new();
            headers::parse_header_blob(empty.as_slice())
        },
    }
}

/// The base64 text of a body, if there is one.
fn body_text(body: &Option<Vec<u8>>) -> (r: String)
    requires
        encode::base64_len(bytes_or_none(*body).len()) <= isize::MAX,
    ensures
        r@ == encode::base64_text(bytes_or_none(*body)),
{
    match body {
        Some(v) => encode::base64_encode(v.as_slice()),
        None => {
            let empty: Vec<u8> = Vec::new();
            encode::base64_encode(empty.as_slice())
        },
    }
}

/// The detail of a transaction, from its row and what was found of its bodies
/// at the places that the row refers to. No row, no detail. The base64 text
/// of a body has to fit in one allocation.
pub fn get(
    row: Option<TransactionRow>,
    req_body: Option<Vec<u8>>,
    resp_body: Option<Vec<u8>>,
) -> (r: Option<TransactionDetail>)
    requires
        encode::base64_len(bytes_or_none(req_body).len()) <= isize::MAX,
        encode::base64_len(bytes_or_none(resp_body).len()) <= isize::MAX,
    ensures
        match (row, r) {
            (Some(row), Some(d)) => is_detail(
                row,
                bytes_or_none(req_body),
                bytes_or_none(resp_body),
                d,
            ),
            (None, None) => true,
            _ => false,
        },
{
    match row {
        None => None,
        Some(row) => Some(
            TransactionDetail {
                req_headers: column_headers(&row.req_header_blob),
                resp_headers: column_headers(&row.resp_header_blob),
                summary: row_to_summary(row.summary),
                http_version: row.http_version,
                client_addr: row.client_addr,
                tls_version: row.tls_version,
                alpn: row.alpn,
                req_body_base64: body_text(&req_body),
                req_body_truncated: row.req_body_truncated,
                req_body_total: row.req_body_total,
                resp_body_base64: body_text(&resp_body),
                resp_body_truncated: row.resp_body_truncated,
                resp_body_total: row.resp_body_total,
                tags: tags_or_null(encode::reprint_json(row.tags.as_str())),
            },
        ),
    }
}

/// What is asked of the store.
#[derive(Debug)]
pub enum StoreRequest {
    Insert(CompletedTx),
    Query(QueryFilter),
    Get(u64),
    Clear,
}

/// The inserts in a list of requests, in order, each with whom to answer.
pub open spec fn inserts_in<R>(pending: Seq<(StoreRequest, R)>) -> Seq<(CompletedTx, R)>
    decreases pending.len(),
{
    if pending.len() == 0 {
        Seq::empty()
    } else {
        let before = inserts_in(pending.drop_last());
        match pending.last() {
            (StoreRequest::Insert(tx), reply) => before.push((tx, reply)),
            _ => before,
        }
    }
}

/// The other requests in a list, in order, each with whom to answer.
pub open spec fn others_in<R>(pending: Seq<(StoreRequest, R)>) -> Seq<(StoreRequest, R)>
    decreases pending.len(),
{
    if pending.len() == 0 {
        Seq::empty()
    } else {
        let before = others_in(pending.drop_last());
        match pending.last() {
            (StoreRequest::Insert(_), _) => before,
            other => before.push(other),
        }
    }
}

/// Whether no more requests are taken into a batch that holds so many.
pub fn batch_full(pending: usize) -> (r: bool)
    ensures
        r == (pending >= BATCH_LIMIT),
{
    pending >= BATCH_LIMIT
}

/// The requests of one round.
#[derive(Debug)]
pub struct Batch<R> {
    /// Written first, all in one database transaction.
    pub inserts: Vec<(CompletedTx, R)>,
    /// Served afterwards, one by one.
    pub others: Vec<(StoreRequest, R)>,
}

/// Part the inserts from the other requests, so that a burst of inserts
/// shares one database transaction. Both keep their order.
pub fn split_batch<R>(pending: Vec<(StoreRequest, R)>) -> (r: Batch<R>)
    ensures
        r.inserts@ == inserts_in(pending@),
        r.others@ == others_in(pending@),
{
    let mut inserts: Vec<(CompletedTx, R)> = Vec::new();
    let mut others: Vec<(StoreRequest, R)> = Vec::new();
    let ghost all = pending@;
    proof {
        assert(all.take(0) =~= Seq::empty());
    }
    for entry in it: pending
        invariant
            it.seq() == all,
            inserts@ == inserts_in(all.take(it.index())),
            others@ == others_in(all.take(it.index())),
    {
        proof {
            assert(entry == all[it.index()]);
            assert(all.take(it.index() + 1).drop_last() =~= all.take(it.index()));
        }
        match entry {
            (StoreRequest::Insert(tx), reply) => inserts.push((tx, reply)),
            (StoreRequest::Query(filter), reply) => {
                others.push((StoreRequest::Query(filter), reply))
            },
            (StoreRequest::Get(id), reply) => others.push((StoreRequest::Get(id), reply)),
            (StoreRequest::Clear, reply) => others.push((StoreRequest::Clear, reply)),
        }
    }
    proof {
        assert(all.take(all.len() as int) =~= all);
    }
    Batch { inserts, others }
}

/// The answer to an insert is what came of its batch.
pub open spec fn is_answer(written: Result<(), String>, answer: Result<(), String>) -> bool {
    match written {
        Ok(_) => answer is Ok,
        Err(e) => answer == Err::<(), String>(e),
    }
}

/// What the inserts of a batch are answered, each of them: what came of writing
/// the batch.
pub fn answer_inserts<R>(replies: Vec<R>, written: Result<(), String>) -> (r: Vec<
    (R, Result<(), String>),
>)
    ensures
        r@.len() == replies@.len(),
        forall|i: int|
            0 <= i < r@.len() ==> (#[trigger] r@[i]).0 == replies@[i] && is_answer(
                written,
                r@[i].1,
            ),
{
    let mut out: Vec<(R, Result<(), String>)> = Vec::new();
    let ghost all = replies@;
    for reply in it: replies
        invariant
            it.seq() == all,
            out@.len() == it.index(),
            forall|i: int|
                0 <= i < out@.len() ==> (#[trigger] out@[i]).0 == all[i] && is_answer(
                    written,
                    out@[i].1,
                ),
    {
        let answer = match &written {
            Ok(_) => Ok(()),
            Err(e) => Err(e.clone()),
        };
        out.push((reply, answer));
    }
    out
}

/// How many inserts have passed since the last pruning.
pub struct PruneCounter {
    inserts: u64,
}

impl PruneCounter {
    #[verifier::type_invariant]
    spec fn wf(self) -> bool {
        self.inserts < PRUNE_EVERY
    }

    /// The inserts since the last pruning.
    pub closed spec fn count(self) -> nat {
        self.inserts as nat
    }

    /// No insert yet.
    pub fn new() -> (r: Self)
        ensures
            r.count() == 0,
    {
        PruneCounter { inserts: 0 }
    }

    /// So many more were inserted. Whether it is time to prune, in which case
    /// counting starts anew.
    pub fn inserted(&mut self, n: usize) -> (due: bool)
        ensures
            due == (old(self).count() + n >= PRUNE_EVERY),
            final(self).count() == (if due {
                0
            } else {
                old(self).count() + n
            }),
            final(self).count() < PRUNE_EVERY,
            due <==> old(self).count() + n >= 500,
            final(self).count() < 500,
    {
        proof {
            use_type_invariant(&*self);
        }
        if n as u64 >= PRUNE_EVERY - self.inserts {
            self.inserts = 0;
            true
        } else {
            self.inserts = self.inserts + n as u64;
            false
        }
    }
}

/// Something that is stored: a row, an inline body or a blob.
#[derive(Debug, Clone, Copy, PartialEq, Eq, Structural)]
pub struct StoredPart {
    /// The transaction that it belongs to.
    pub id: u64,
    /// Whether it is the row.
    pub row: bool,
    /// What it takes.
    pub bytes: u64,
}

/// How many rows are stored from an identifier on.
pub open spec fn rows_stored(parts: Seq<StoredPart>, low: u64) -> nat
    decreases parts.len(),
{
    if parts.len() == 0 {
        0
    } else {
        let part = parts.last();
        rows_stored(parts.drop_last(), low) + if part.row && part.id >= low {
            1nat
        } else {
            0
        }
    }
}

/// What is stored from an identifier on takes.
pub open spec fn bytes_stored(parts: Seq<StoredPart>, low: u64) -> nat
    decreases parts.len(),
{
    if parts.len() == 0 {
        0
    } else {
        let part = parts.last();
        bytes_stored(parts.drop_last(), low) + if part.id >= low {
            part.bytes as nat
        } else {
            0
        }
    }
}

/// Whether what is stored from an identifier on keeps within the caps.
pub open spec fn fits(parts: Seq<StoredPart>, low: u64, rows: u64, bytes: u64) -> bool {
    rows_stored(parts, low) <= rows && bytes_stored(parts, low) <= bytes
}

/// The lowest identifier from which on what is stored keeps within the caps;
/// the highest identifier of all where there is none.
pub open spec fn is_oldest_kept(parts: Seq<StoredPart>, rows: u64, bytes: u64, low: u64) -> bool {
    &&& low == u64::MAX || fits(parts, low, rows, bytes)
    &&& forall|lower: u64| lower < low ==> !#[trigger] fits(parts, lower, rows, bytes)
}

/// The lowest identifier from which on what is stored keeps within the caps.
pub open spec fn oldest_kept(parts: Seq<StoredPart>, rows: u64, bytes: u64) -> u64 {
    choose|low: u64| is_oldest_kept(parts, rows, bytes, low)
}

/// The less is kept, the less is stored.
pub proof fn lemma_fewer_stored(parts: Seq<StoredPart>, low: u64, higher: u64)
    requires
        low <= higher,
    ensures
        rows_stored(parts, higher) <= rows_stored(parts, low),
        bytes_stored(parts, higher) <= bytes_stored(parts, low),
    decreases parts.len(),
{
    if parts.len() > 0 {
        lemma_fewer_stored(parts.drop_last(), low, higher);
    }
}

/// A beginning of a list of parts takes no more than the whole.
proof fn lemma_stored_prefix(parts: Seq<StoredPart>, n: int, low: u64)
    requires
        0 <= n <= parts.len(),
    ensures
        rows_stored(parts.take(n), low) <= rows_stored(parts, low),
        bytes_stored(parts.take(n), low) <= bytes_stored(parts, low),
    decreases parts.len(),
{
    if n == parts.len() {
        assert(parts.take(n) =~= parts);
    } else {
        lemma_stored_prefix(parts.drop_last(), n, low);
        assert(parts.drop_last().take(n) =~= parts.take(n));
    }
}

/// Whether what is stored from an identifier on keeps within the caps.
fn keeps_within(parts: &Vec<StoredPart>, low: u64, rows: u64, bytes: u64) -> (r: bool)
    ensures
        r == fits(parts@, low, rows, bytes),
{
    let mut row_room: u64 = rows;
    let mut room: u64 = bytes;
    let mut i: usize = 0;
    while i < parts.len()
        invariant
            i <= parts@.len(),
            row_room <= rows,
            room <= bytes,
            rows_stored(parts@.take(i as int), low) == rows - row_room,
            bytes_stored(parts@.take(i as int), low) == bytes - room,
        decreases parts@.len() - i,
    {
        let part = parts[i];
        proof {
            assert(parts@.take(i + 1).drop_last() =~= parts@.take(i as int));
            assert(parts@.take(i + 1).last() == part);
            lemma_stored_prefix(parts@, i + 1, low);
        }
        if part.id >= low {
            if part.row {
                if row_room == 0 {
                    return false;
                }
                row_room = row_room - 1;
            }
            if part.bytes > room {
                return false;
            }
            room = room - part.bytes;
        }
        i += 1;
    }
    proof {
        assert(parts@.take(i as int) =~= parts@);
    }
    true
}

/// The lowest identifier from which on what is stored keeps within the caps.
pub fn find_oldest_kept(parts: &Vec<StoredPart>, rows: u64, bytes: u64) -> (r: u64)
    ensures
        is_oldest_kept(parts@, rows, bytes, r),
        r == oldest_kept(parts@, rows, bytes),
{
    let mut low: u64 = 0;
    let mut high: u64 = u64::MAX;
    while low < high
        invariant
            low <= high,
            high == u64::MAX || fits(parts@, high, rows, bytes),
            forall|lower: u64| lower < low ==> !#[trigger] fits(parts@, lower, rows, bytes),
        decreases high - low,
    {
        let mid: u64 = low + (high - low) / 2;
        if keeps_within(parts, mid, rows, bytes) {
            high = mid;
        } else {
            proof {
                assert forall|lower: u64| lower < mid + 1 implies !#[trigger] fits(
                    parts@,
                    lower,
                    rows,
                    bytes,
                ) by {
                    lemma_fewer_stored(parts@, lower, mid);
                }
            }
            low = mid + 1;
        }
    }
    proof {
        lemma_oldest_kept(parts@, rows, bytes, low);
    }
    low
}

/// There is only one such identifier.
pub proof fn lemma_oldest_kept(parts: Seq<StoredPart>, rows: u64, bytes: u64, low: u64)
    requires
        is_oldest_kept(parts, rows, bytes, low),
    ensures
        oldest_kept(parts, rows, bytes) == low,
{
    let other = oldest_kept(parts, rows, bytes);
    assert(is_oldest_kept(parts, rows, bytes, other));
    if other < low {
        assert(!fits(parts, other, rows, bytes));
    } else if low < other {
        assert(!fits(parts, low, rows, bytes));
    }
}

/// The lowest row that is stored at or above an identifier, if there is one.
pub open spec fn lowest_row(parts: Seq<StoredPart>, low: u64) -> Option<u64>
    decreases parts.len(),
{
    if parts.len() == 0 {
        None
    } else {
        let before = lowest_row(parts.drop_last(), low);
        let part = parts.last();
        if part.row && part.id >= low && (before is None || part.id < before->0) {
            Some(part.id)
        } else {
            before
        }
    }
}

/// What is deleted lies below this identifier, where everything from `low` on
/// keeps within the caps: the lowest row that is kept, so that nothing is left
/// of transactions without a row below it; `low` itself where no row is kept.
pub open spec fn deleted_below(parts: Seq<StoredPart>, low: u64) -> u64 {
    match lowest_row(parts, low) {
        Some(id) => id,
        None => low,
    }
}

/// What is deleted lies below this identifier.
fn find_deleted_below(parts: &Vec<StoredPart>, low: u64) -> (r: u64)
    ensures
        r == deleted_below(parts@, low),
{
    let mut lowest: Option<u64> = None;
    let mut i: usize = 0;
    while i < parts.len()
        invariant
            i <= parts@.len(),
            lowest == lowest_row(parts@.take(i as int), low),
        decreases parts@.len() - i,
    {
        let part = parts[i];
        proof {
            assert(parts@.take(i + 1).drop_last() =~= parts@.take(i as int));
            assert(parts@.take(i + 1).last() == part);
        }
        if part.row && part.id >= low {
            lowest = match lowest {
                Some(id) => if part.id < id {
                    Some(part.id)
                } else {
                    Some(id)
                },
                None => Some(part.id),
            };
        }
        i += 1;
    }
    proof {
        assert(parts@.take(i as int) =~= parts@);
    }
    match lowest {
        Some(id) => id,
        None => low,
    }
}

/// The next thing to do in a pruning.
#[derive(Debug, Clone, Copy, PartialEq, Eq, Structural)]
pub enum PruneStep {
    /// List everything that is stored, of which at most so many rows and so
    /// many bytes are kept.
    Measure { rows: u64, bytes: u64 },
    /// Delete the transactions below this identifier.
    DeleteRows { below: u64 },
    /// Delete the inline bodies of the transactions below this identifier.
    DeleteBodies { below: u64 },
    /// Remove the blobs of the transactions below this identifier.
    RemoveBlobs { below: u64 },
    Done,
}

/// What a step of a pruning found.
#[derive(Debug)]
pub enum PruneFound {
    /// Everything that is stored.
    Stored(Vec<StoredPart>),
    /// The step has nothing to tell.
    Nothing,
}

/// A pruning begins with the retention caps.
pub open spec fn prune_start() -> PruneStep {
    PruneStep::Measure { rows: MAX_TRANSACTIONS, bytes: MAX_STORED_BYTES }
}

/// What follows a step. A store that keeps within the caps is left alone.
pub open spec fn prune_after(step: PruneStep, found: PruneFound) -> PruneStep {
    match (step, found) {
        (PruneStep::Measure { rows, bytes }, PruneFound::Stored(parts)) => {
            let low = oldest_kept(parts@, rows, bytes);
            if low > 0 {
                PruneStep::DeleteRows { below: deleted_below(parts@, low) }
            } else {
                PruneStep::Done
            }
        },
        (PruneStep::DeleteRows { below }, _) => PruneStep::DeleteBodies { below },
        (PruneStep::DeleteBodies { below }, _) => PruneStep::RemoveBlobs { below },
        _ => PruneStep::Done,
    }
}

/// The first step of a pruning.
pub fn prune() -> (r: PruneStep)
    ensures
        r == prune_start(),
{
    PruneStep::Measure { rows: MAX_TRANSACTIONS, bytes: MAX_STORED_BYTES }
}

/// The step of a pruning that follows another.
pub fn prune_next(step: PruneStep, found: PruneFound) -> (r: PruneStep)
    ensures
        r == prune_after(step, found),
{
    match step {
        PruneStep::Measure { rows, bytes } => match found {
            PruneFound::Stored(parts) => {
                let low = find_oldest_kept(&parts, rows, bytes);
                if low > 0 {
                    PruneStep::DeleteRows { below: find_deleted_below(&parts, low) }
                } else {
                    PruneStep::Done
                }
            },
            PruneFound::Nothing => PruneStep::Done,
        },
        PruneStep::DeleteRows { below } => PruneStep::DeleteBodies { below },
        PruneStep::DeleteBodies { below } => PruneStep::RemoveBlobs { below },
        _ => PruneStep::Done,
    }
}

/// The next thing to do when the session is cleared.
#[derive(Debug, Clone, Copy, PartialEq, Eq, Structural)]
pub enum ClearStep {
    /// Delete every transaction.
    DeleteRows,
    /// Delete every inline body.
    DeleteBodies,
    /// Remove every blob.
    RemoveBlobs,
    Done,
}

/// What follows a step.
pub open spec fn clear_after(step: ClearStep) -> ClearStep {
    match step {
        ClearStep::DeleteRows => ClearStep::DeleteBodies,
        ClearStep::DeleteBodies => ClearStep::RemoveBlobs,
        _ => ClearStep::Done,
    }
}

/// The first step when the session is cleared.
pub fn clear() -> (r: ClearStep)
    ensures
        r == ClearStep::DeleteRows,
{
    ClearStep::DeleteRows
}

/// The step that follows another when the session is cleared.
pub fn clear_next(step: ClearStep) -> (r: ClearStep)
    ensures
        r == clear_after(step),
{
    match step {
        ClearStep::DeleteRows => ClearStep::DeleteBodies,
        ClearStep::DeleteBodies => ClearStep::RemoveBlobs,
        _ => ClearStep::Done,
    }
}

/// The transaction that a file of the blob directory belongs to: its name
/// begins with the identifier and a dot.
pub open spec fn owner_of(name: Seq<char>) -> Option<u64> {
    match text::cut(name, "."@) {
        Some((id, _)) => match text::numeral_value(id) {
            Some(n) if n <= u64::MAX => Some(n as u64),
            _ => None,
        },
        None => None,
    }
}

/// The transaction that a file of the blob directory belongs to.
fn blob_owner(name: &str) -> (r: Option<u64>)
    ensures
        r == owner_of(name@),
{
    match text::split_once(name, ".") {
        Some((id, _)) => text::parse_u64(id.as_str()),
        None => None,
    }
}

/// What is stored in a file of the blob directory, unless it belongs to no
/// transaction.
pub fn blob_part(name: &str, bytes: u64) -> (r: Option<StoredPart>)
    ensures
        r == (match owner_of(name@) {
            Some(id) => Some(StoredPart { id, row: false, bytes }),
            None => None,
        }),
{
    match blob_owner(name) {
        Some(id) => Some(StoredPart { id, row: false, bytes }),
        None => None,
    }
}

/// Whether a file of the blob directory belongs to a transaction below
/// `below`.
pub open spec fn is_stale(name: Seq<char>, below: u64) -> bool {
    match owner_of(name) {
        Some(id) => id < below,
        None => false,
    }
}

/// Whether a file of the blob directory belongs to a transaction below
/// `below`.
pub fn stale_blob(name: &str, below: u64) -> (r: bool)
    ensures
        r == is_stale(name@, below),
{
    match blob_owner(name) {
        Some(id) => id < below,
        None => false,
    }
}

/// A body goes nowhere exactly when it is empty, into the database up to
/// 262144 bytes, and beyond that into a blob that is named by the transaction
/// and by which of its bodies it is.
pub proof fn law_body_goes_by_its_size(id: u64, kind: BodyKind, len: nat)
    ensures
        place_for(id, kind, len) is Nowhere <==> len == 0,
        place_for(id, kind, len) is Inline <==> 0 < len && len <= 262_144,
        place_for(id, kind, len) is File <==> len > 262_144,
        len > 262_144 && kind is Req ==> place_for(id, kind, len) == Place::File(
            text::decimal_of(id as nat) + seq!['.', 'r', 'e', 'q'],
        ),
        len > 262_144 && kind is Resp ==> place_for(id, kind, len) == Place::File(
            text::decimal_of(id as nat) + seq!['.', 'r', 'e', 's', 'p'],
        ),
{
    reveal_strlit(".");
    reveal_strlit("req");
    reveal_strlit("resp");
    assert(blob_name(id, BodyKind::Req) =~= text::decimal_of(id as nat) + seq!['.', 'r', 'e', 'q']);
    assert(blob_name(id, BodyKind::Resp) =~= text::decimal_of(id as nat) + seq![
        '.',
        'r',
        'e',
        's',
        'p',
    ]);
}

/// What is done with a body, call by call: the place is the one that its size
/// asks for, and the reference to it leads there again.
pub proof fn law_body_plan_leads_back(
    id: u64,
    kind: BodyKind,
    body: &[u8],
    plan: BodyPlan,
    body_ref: &str,
    found: BodyPlace,
)
    requires
        call_ensures(body_ref_and_store, (id, kind, body), plan),
        body_ref@ == plan.body_ref@,
        call_ensures(load_body, (body_ref,), found),
    ensures
        found@ == plan.place@,
        found is Nowhere <==> body@.len() == 0,
        found is Inline <==> 0 < body@.len() && body@.len() <= 262_144,
        found is File <==> body@.len() > 262_144,
{
    law_body_ref_resolves(id, kind, body@.len());
}

/// References are told apart by their texts, and a text that is no reference
/// leads nowhere.
pub proof fn law_reference_texts(name: Seq<char>, other: Seq<char>)
    ensures
        ref_text(Place::Nowhere) == "none"@,
        ref_text(Place::Inline) == "inline"@,
        ref_text(Place::File(name)) == seq!['f', 'i', 'l', 'e', ':'] + name,
        place_of_ref("none"@) is Nowhere,
        place_of_ref("inline"@) is Inline,
        place_of_ref(seq!['f', 'i', 'l', 'e', ':'] + name) == Place::File(name),
        other != "inline"@ && !(other.len() >= 5 && other.take(5) == seq![
            'f',
            'i',
            'l',
            'e',
            ':',
        ]) ==> place_of_ref(other) is Nowhere,
{
    reveal_strlit("none");
    reveal_strlit("inline");
    reveal_strlit("file:");
    assert("inline"@.len() != "none"@.len());
    let start = seq!['f', 'i', 'l', 'e', ':'];
    assert("file:"@ =~= start);
    let r = start + name;
    assert(r[0] == 'f');
    assert(r != "none"@ && r != "inline"@);
    assert(r.take(5) =~= start);
    assert(r.skip(5) =~= name);
    assert(text::begins(r, "file:"@));
}

/// The row that is written for a transaction holds it: each column the field
/// that has its name, and the two bodies where their sizes put them.
pub proof fn law_row_holds_the_transaction(tx: CompletedTx, plan: InsertPlan)
    requires
        writes(tx, plan),
    ensures
        plan.row.summary.id == tx.summary.id,
        plan.row.summary.started_at == tx.summary.started_at_ms,
        plan.row.summary.duration_ms == tx.summary.duration_ms,
        plan.row.summary.kind == tx.summary.kind,
        plan.row.summary.scheme == tx.summary.scheme,
        plan.row.summary.method == tx.summary.method,
        plan.row.summary.host == tx.summary.host,
        plan.row.summary.path == tx.summary.path,
        plan.row.summary.query == tx.summary.query,
        plan.row.summary.status == tx.summary.status,
        plan.row.summary.req_size == tx.summary.req_size,
        plan.row.summary.resp_size == tx.summary.resp_size,
        plan.row.summary.content_type == tx.summary.content_type,
        plan.row.summary.error == tx.summary.error,
        plan.row.http_version == tx.http_version,
        plan.row.client_addr == tx.client_addr,
        plan.row.tls_version == tx.tls_version,
        plan.row.alpn == tx.alpn,
        plan.row.req_header_blob == Some(tx.req_header_blob),
        plan.row.resp_header_blob == Some(tx.resp_header_blob),
        plan.row.req_body_total == tx.req_body_total,
        plan.row.resp_body_total == tx.resp_body_total,
        plan.row.req_body_truncated == tx.req_body_truncated,
        plan.row.resp_body_truncated == tx.resp_body_truncated,
        plan.row.tags == tx.tags,
        plan.req_body == tx.req_body,
        plan.resp_body == tx.resp_body,
        place_of_ref(plan.row.req_body_ref@) == plan.req_place@,
        place_of_ref(plan.row.resp_body_ref@) == plan.resp_place@,
        plan.req_place@ is Nowhere <==> tx.req_body@.len() == 0,
        plan.resp_place@ is Nowhere <==> tx.resp_body@.len() == 0,
        plan.req_place@ is Inline <==> 0 < tx.req_body@.len() && tx.req_body@.len() <= 262_144,
        plan.resp_place@ is Inline <==> 0 < tx.resp_body@.len() && tx.resp_body@.len() <= 262_144,
        plan.req_place@ is File && plan.resp_place@ is File ==> plan.req_place@
            != plan.resp_place@,
{
    let id = tx.summary.id;
    law_body_ref_resolves(id, BodyKind::Req, tx.req_body@.len());
    law_body_ref_resolves(id, BodyKind::Resp, tx.resp_body@.len());
    law_body_goes_by_its_size(id, BodyKind::Req, tx.req_body@.len());
    law_body_goes_by_its_size(id, BodyKind::Resp, tx.resp_body@.len());
    reveal_strlit("req");
    reveal_strlit("resp");
    assert(blob_name(id, BodyKind::Req).len() != blob_name(id, BodyKind::Resp).len());
}

/// A summary that is written and read again is the same in every field but
/// the state, which is told by the error: a transaction with one failed, any
/// other completed.
pub proof fn law_summary_survives_the_row(s: TransactionSummary, row: SummaryRow)
    ensures
        ({
            let back = summary_of_row(summary_columns(s));
            &&& back.id == s.id
            &&& back.started_at_ms == s.started_at_ms
            &&& back.duration_ms == s.duration_ms
            &&& back.kind == s.kind
            &&& back.scheme == s.scheme
            &&& back.method == s.method
            &&& back.host == s.host
            &&& back.path == s.path
            &&& back.query == s.query
            &&& back.status == s.status
            &&& back.req_size == s.req_size
            &&& back.resp_size == s.resp_size
            &&& back.content_type == s.content_type
            &&& back.error == s.error
            &&& back.state is Failed <==> s.error is Some
            &&& back.state is Completed <==> s.error is None
        }),
        ({
            let s = summary_of_row(row);
            &&& s.id == row.id
            &&& s.started_at_ms == row.started_at
            &&& s.duration_ms == row.duration_ms
            &&& s.kind == row.kind
            &&& s.scheme == row.scheme
            &&& s.method == row.method
            &&& s.host == row.host
            &&& s.path == row.path
            &&& s.query == row.query
            &&& s.status == row.status
            &&& s.req_size == row.req_size
            &&& s.resp_size == row.resp_size
            &&& s.content_type == row.content_type
            &&& s.error == row.error
            &&& s.state is Failed <==> row.error is Some
            &&& s.state is Completed <==> row.error is None
        }),
{
}

/// The detail that is read of a written transaction tells what was written.
pub proof fn law_detail_tells_the_transaction(
    tx: CompletedTx,
    plan: InsertPlan,
    req_body: Seq<u8>,
    resp_body: Seq<u8>,
    d: TransactionDetail,
)
    requires
        writes(tx, plan),
        is_detail(plan.row, req_body, resp_body, d),
    ensures
        d.summary.id == tx.summary.id,
        d.summary.started_at_ms == tx.summary.started_at_ms,
        d.summary.duration_ms == tx.summary.duration_ms,
        d.summary.kind == tx.summary.kind,
        d.summary.scheme == tx.summary.scheme,
        d.summary.method == tx.summary.method,
        d.summary.host == tx.summary.host,
        d.summary.path == tx.summary.path,
        d.summary.query == tx.summary.query,
        d.summary.status == tx.summary.status,
        d.summary.req_size == tx.summary.req_size,
        d.summary.resp_size == tx.summary.resp_size,
        d.summary.content_type == tx.summary.content_type,
        d.summary.error == tx.summary.error,
        d.summary.state is Failed <==> tx.summary.error is Some,
        d.http_version == tx.http_version,
        d.client_addr == tx.client_addr,
        d.tls_version == tx.tls_version,
        d.alpn == tx.alpn,
        headers::are_fields_of(tx.req_header_blob@, headers::field_texts(d.req_headers@)),
        headers::are_fields_of(tx.resp_header_blob@, headers::field_texts(d.resp_headers@)),
        d.req_body_base64@ == encode::base64_text(req_body),
        d.resp_body_base64@ == encode::base64_text(resp_body),
        d.req_body_total == tx.req_body_total,
        d.resp_body_total == tx.resp_body_total,
        d.req_body_truncated == tx.req_body_truncated,
        d.resp_body_truncated == tx.resp_body_truncated,
        encode::json_reprinted(tx.tags@) is Some ==> d.tags@ == encode::json_reprinted(
            tx.tags@,
        )->0,
        encode::json_reprinted(tx.tags@) is None ==> d.tags@ == seq!['n', 'u', 'l', 'l'],
{
    reveal_strlit("null");
    assert("null"@ =~= seq!['n', 'u', 'l', 'l']);
}

/// Parting a list of requests goes request by request: an insert is added to
/// the inserts and to nothing else, any other request to the others and to
/// nothing else, and whom to answer stays with each.
pub proof fn law_split_goes_request_by_request<R>(
    pending: Seq<(StoreRequest, R)>,
    request: StoreRequest,
    reply: R,
)
    ensures
        inserts_in(Seq::<(StoreRequest, R)>::empty()).len() == 0,
        others_in(Seq::<(StoreRequest, R)>::empty()).len() == 0,
        request matches StoreRequest::Insert(tx) ==> {
            &&& inserts_in(pending.push((request, reply))) == inserts_in(pending).push((tx, reply))
            &&& others_in(pending.push((request, reply))) == others_in(pending)
        },
        !(request is Insert) ==> {
            &&& inserts_in(pending.push((request, reply))) == inserts_in(pending)
            &&& others_in(pending.push((request, reply))) == others_in(pending).push(
                (request, reply),
            )
        },
{
    assert(pending.push((request, reply)).drop_last() =~= pending);
}

/// No more than 256 requests are served as one batch.
pub proof fn law_batch_is_full_at_its_limit(pending: usize, r: bool)
    requires
        call_ensures(batch_full, (pending,), r),
    ensures
        r <==> pending >= 256,
{
}

/// A pruning begins by measuring against the retention caps: 50000
/// transactions and two gigabytes.
pub proof fn law_pruning_begins_with_the_caps(r: PruneStep)
    requires
        call_ensures(prune, (), r),
    ensures
        r == (PruneStep::Measure { rows: 50_000, bytes: 2_000_000_000 }),
{
}

/// What is stored from an identifier on is counted part by part: a row counts
/// as one row, every part by its bytes, and what lies below not at all.
pub proof fn law_stored_is_counted_part_by_part(parts: Seq<StoredPart>, part: StoredPart, low: u64)
    ensures
        rows_stored(Seq::empty(), low) == 0,
        bytes_stored(Seq::empty(), low) == 0,
        part.id < low ==> rows_stored(parts.push(part), low) == rows_stored(parts, low)
            && bytes_stored(parts.push(part), low) == bytes_stored(parts, low),
        part.id >= low ==> bytes_stored(parts.push(part), low) == bytes_stored(parts, low)
            + part.bytes,
        part.id >= low && part.row ==> rows_stored(parts.push(part), low) == rows_stored(
            parts,
            low,
        ) + 1,
        !part.row ==> rows_stored(parts.push(part), low) == rows_stored(parts, low),
{
    assert(parts.push(part).drop_last() =~= parts);
}

/// Nothing is deleted of a store that keeps within the caps. Otherwise what is
/// left keeps within them, and one transaction more would not.
pub proof fn law_pruning_keeps_what_fits(
    parts: Vec<StoredPart>,
    rows: u64,
    bytes: u64,
    next: PruneStep,
)
    requires
        call_ensures(
            prune_next,
            (PruneStep::Measure { rows, bytes }, PruneFound::Stored(parts)),
            next,
        ),
    ensures
        rows_stored(parts@, 0) <= rows && bytes_stored(parts@, 0) <= bytes ==> next is Done,
        rows_stored(parts@, 0) > rows || bytes_stored(parts@, 0) > bytes ==> next is DeleteRows,
        next matches PruneStep::DeleteRows { below } ==> {
            &&& below < u64::MAX ==> rows_stored(parts@, below) <= rows && bytes_stored(
                parts@,
                below,
            ) <= bytes
            &&& forall|i: int|
                0 <= i < parts@.len() && (#[trigger] parts@[i]).row && parts@[i].id < below ==> {
                    ||| rows_stored(parts@, parts@[i].id) > rows
                    ||| bytes_stored(parts@, parts@[i].id) > bytes
                }
        },
{
    let all = parts@;
    let low = oldest_kept(all, rows, bytes);
    lemma_some_oldest(all, rows, bytes, u64::MAX);
    assert(is_oldest_kept(all, rows, bytes, low));
    if low > 0 {
        assert(!fits(all, 0, rows, bytes));
        let below = deleted_below(all, low);
        lemma_lowest_row(all, low);
        lemma_fewer_stored(all, low, below);
        assert forall|i: int| 0 <= i < all.len() && (#[trigger] all[i]).row && all[i].id
            < below implies {
            ||| rows_stored(all, all[i].id) > rows
            ||| bytes_stored(all, all[i].id) > bytes
        } by {
            assert(all[i].id < low);
            assert(!fits(all, all[i].id, rows, bytes));
        }
    } else {
        assert(fits(all, 0, rows, bytes));
    }
}

/// There is a lowest identifier from which on what is stored fits.
proof fn lemma_some_oldest(parts: Seq<StoredPart>, rows: u64, bytes: u64, low: u64)
    requires
        low == u64::MAX || fits(parts, low, rows, bytes),
    ensures
        exists|l: u64| is_oldest_kept(parts, rows, bytes, l),
    decreases low,
{
    if exists|lower: u64| lower < low && fits(parts, lower, rows, bytes) {
        let lower = choose|lower: u64| lower < low && fits(parts, lower, rows, bytes);
        lemma_some_oldest(parts, rows, bytes, lower);
    } else {
        assert(is_oldest_kept(parts, rows, bytes, low));
    }
}

/// The lowest row is at or above the identifier, and below no other such row.
proof fn lemma_lowest_row(parts: Seq<StoredPart>, low: u64)
    ensures
        lowest_row(parts, low) matches Some(id) ==> id >= low,
        forall|i: int|
            0 <= i < parts.len() && (#[trigger] parts[i]).row && parts[i].id >= low ==> lowest_row(
                parts,
                low,
            ) is Some && lowest_row(parts, low)->0 <= parts[i].id,
    decreases parts.len(),
{
    if parts.len() > 0 {
        let fewer = parts.drop_last();
        lemma_lowest_row(fewer, low);
        assert forall|i: int|
            0 <= i < parts.len() && (#[trigger] parts[i]).row && parts[i].id
                >= low implies lowest_row(parts, low) is Some && lowest_row(parts, low)->0
            <= parts[i].id by {
            if i < fewer.len() {
                assert(fewer[i] == parts[i]);
            }
        }
    }
}

/// Pruning and clearing delete rows first, then inline bodies, then blobs, and
/// a pruning deletes the same transactions in each of these steps.
pub proof fn law_deletions_go_in_order(below: u64, found: PruneFound)
    ensures
        prune_after(PruneStep::DeleteRows { below }, found) == (PruneStep::DeleteBodies { below }),
        prune_after(PruneStep::DeleteBodies { below }, found) == (PruneStep::RemoveBlobs { below }),
        prune_after(PruneStep::RemoveBlobs { below }, found) is Done,
        prune_after(PruneStep::Done, found) is Done,
        clear_after(ClearStep::DeleteRows) is DeleteBodies,
        clear_after(ClearStep::DeleteBodies) is RemoveBlobs,
        clear_after(ClearStep::RemoveBlobs) is Done,
        clear_after(ClearStep::Done) is Done,
{
}

/// A file of the blob directory belongs to the transaction whose number its
/// name begins with, before a dot; a file whose name begins otherwise belongs
/// to none and is never stale.
pub proof fn law_blob_belongs_to_its_number(id: u64, rest: Seq<char>, name: Seq<char>, below: u64)
    ensures
        owner_of(text::decimal_of(id as nat) + seq!['.'] + rest) == Some(id),
        is_stale(text::decimal_of(id as nat) + seq!['.'] + rest, below) <==> id < below,
        !name.contains('.') ==> owner_of(name) is None && !is_stale(name, below),
        name.len() > 0 && name[0] != '+' && !('0' <= name[0] && name[0] <= '9') ==> owner_of(
            name,
        ) is None && !is_stale(name, below),
{
    reveal_strlit(".");
    let d = text::decimal_of(id as nat);
    let whole = d + seq!['.'] + rest;
    let n = d.len() as int;
    text::lemma_decimal_value(id as nat);
    assert(whole.subrange(n, n + 1) =~= "."@);
    assert forall|j: int| 0 <= j < n implies !text::occurs_at(whole, "."@, j) by {
        assert(whole.subrange(j, j + 1)[0] == d[j]);
        assert('0' <= d[j] && d[j] <= '9');
    }
    text::lemma_cut_at(whole, "."@, n);
    assert(whole.take(n) =~= d);
    text::law_cut_is_at_the_first(name, "."@);
    if !name.contains('.') && text::contains_text(name, "."@) {
        let i = choose|i: int| text::occurs_at(name, "."@, i);
        assert(name.subrange(i, i + 1)[0] == '.');
        assert(name[i] == '.');
    }
    if let Some((a, b)) = text::cut(name, "."@) {
        text::law_numeral_reads_back(0, a);
        if a.len() > 0 {
            assert(name[0] == a[0]);
        }
    }
}

/// What a row takes: eight bytes for each of its ten numbers, and the bytes of
/// each of its texts and of both header blobs, where they are there.
pub proof fn law_row_takes_its_texts_and_numbers(row: TransactionRow)
    ensures
        ({
            let s = row.summary;
            row_bytes(row) == 8 * 10
                + encode_utf8(s.kind@).len()
                + encode_utf8(s.scheme@).len()
                + encode_utf8(s.method@).len()
                + encode_utf8(s.host@).len()
                + encode_utf8(s.path@).len()
                + encode_utf8(row.http_version@).len()
                + encode_utf8(row.client_addr@).len()
                + encode_utf8(row.req_body_ref@).len()
                + encode_utf8(row.resp_body_ref@).len()
                + encode_utf8(row.tags@).len()
                + (if s.query is Some {
                encode_utf8(s.query->0@).len()
            } else {
                0
            })
                + (if row.tls_version is Some {
                encode_utf8(row.tls_version->0@).len()
            } else {
                0
            })
                + (if row.alpn is Some {
                encode_utf8(row.alpn->0@).len()
            } else {
                0
            })
                + (if s.content_type is Some {
                encode_utf8(s.content_type->0@).len()
            } else {
                0
            })
                + (if s.error is Some {
                encode_utf8(s.error->0@).len()
            } else {
                0
            })
                + (if row.req_header_blob is Some {
                row.req_header_blob->0@.len()
            } else {
                0
            })
                + (if row.resp_header_blob is Some {
                row.resp_header_blob->0@.len()
            } else {
                0
            })
        }),
{
}

/// What is written for a transaction, and the summary that is read of its row:
/// the transaction's own, with the state told by its error.
pub proof fn law_written_summary_is_read_back(
    tx: CompletedTx,
    plan: InsertPlan,
    s: TransactionSummary,
)
    requires
        call_ensures(insert_plan, (tx,), plan),
        call_ensures(row_to_summary, (plan.row.summary,), s),
    ensures
        s == (TransactionSummary { state: s.state, ..tx.summary }),
        s.state is Failed <==> tx.summary.error is Some,
        s.state is Completed <==> tx.summary.error is None,
{
}

/// A transaction is shown exactly where it has a row.
pub proof fn law_detail_needs_a_row(
    row: Option<TransactionRow>,
    req_body: Option<Vec<u8>>,
    resp_body: Option<Vec<u8>>,
    r: Option<TransactionDetail>,
)
    requires
        call_ensures(get, (row, req_body, resp_body), r),
    ensures
        r is Some <==> row is Some,
        r is Some && req_body is Some ==> r->0.req_body_base64@ == encode::base64_text(
            req_body->0@,
        ),
        r is Some && resp_body is Some ==> r->0.resp_body_base64@ == encode::base64_text(
            resp_body->0@,
        ),
        r is Some && req_body is None ==> r->0.req_body_base64@.len() == 0,
        r is Some && resp_body is None ==> r->0.resp_body_base64@.len() == 0,
        r is Some ==> r->0.summary.id == row->0.summary.id && r->0.summary.query
            == row->0.summary.query && r->0.summary.method == row->0.summary.method,
{
}

/// Whether a blob is stale, and what it takes: both by the number that its
/// name begins with.
pub proof fn law_blob_is_told_by_its_number(
    id: u64,
    name: &str,
    rest: Seq<char>,
    bytes: u64,
    below: u64,
    part: Option<StoredPart>,
    stale: bool,
)
    requires
        name@ == text::decimal_of(id as nat) + seq!['.'] + rest,
        call_ensures(blob_part, (name, bytes), part),
        call_ensures(stale_blob, (name, below), stale),
    ensures
        part == Some(StoredPart { id, row: false, bytes }),
        stale <==> id < below,
{
    law_blob_belongs_to_its_number(id, rest, name@, below);
}

/// Every insert of a batch is answered what came of writing it.
pub proof fn law_inserts_are_answered_alike<R>(
    replies: Vec<R>,
    written: Result<(), String>,
    r: Vec<(R, Result<(), String>)>,
    i: int,
)
    requires
        call_ensures(answer_inserts::<R>, (replies, written), r),
        0 <= i < replies@.len(),
    ensures
        r@.len() == replies@.len(),
        r@[i].0 == replies@[i],
        r@[i].1 is Ok <==> written is Ok,
        written is Err ==> r@[i].1->Err_0 == written->Err_0,
{
    assert(r@[i].0 == replies@[i]);
}

/// A pruning is due at the five hundredth insert since the last, counted over
/// however many batches, and counting starts anew then.
pub proof fn law_pruning_is_due_every_500_inserts(n: usize)
    ensures
        forall|counter: &mut PruneCounter, due: bool|
            #[trigger] call_ensures(PruneCounter::inserted, (counter, n), due) ==> {
                &&& due <==> counter.count() + n >= 500
                &&& due ==> final(counter).count() == 0
                &&& !due ==> final(counter).count() == counter.count() + n
            },
{
}

} // verus!
