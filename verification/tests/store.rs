use std::collections::BTreeMap;

use base64::Engine as _;
use httpmate_core::events::{QueryFilter, TransactionDetail, TransactionSummary, TxState};
use httpmate_core::headers::serialize_headers;
use httpmate_core::proxy::{connect_record, finish_transaction};
use httpmate_core::query::{query, SqlValue};
use httpmate_core::store;
use httpmate_core::store::{
    answer_inserts, blob_part, body_kind_name, body_ref_and_store, find_oldest_kept, get, insert_batch, insert_plan, load_body,
    row_to_summary, split_batch, stale_blob, tags_or_null, BodyKind, BodyPlace, ClearStep,
    CompletedTx, InsertPlan, PruneCounter, PruneFound, PruneStep, StoreRequest, StoredPart,
    SummaryRow, TransactionRow, INLINE_BODY_LIMIT,
};
use httpmate_core::tee::{CaptureGuard, CapturedBody};
use rusqlite::types::Value;
use rusqlite::{Connection, OptionalExtension, Row};

/// A session database in memory, with its blobs.
struct Session {
    conn: Connection,
    blobs: BTreeMap<String, Vec<u8>>,
}

fn text(v: &Option<String>) -> Value {
    match v {
        Some(s) => Value::Text(s.clone()),
        None => Value::Null,
    }
}

fn blob(v: &Option<Vec<u8>>) -> Value {
    match v {
        Some(b) => Value::Blob(b.clone()),
        None => Value::Null,
    }
}

fn number(v: Option<i64>) -> Value {
    match v {
        Some(n) => Value::Integer(n),
        None => Value::Null,
    }
}

fn columns(row: &TransactionRow) -> Vec<Value> {
    let s = &row.summary;
    vec![
        Value::Integer(s.id as i64),
        Value::Integer(s.started_at),
        number(s.duration_ms.map(|n| n as i64)),
        Value::Text(s.kind.clone()),
        Value::Text(s.scheme.clone()),
        Value::Text(s.method.clone()),
        Value::Text(s.host.clone()),
        Value::Text(s.path.clone()),
        text(&s.query),
        Value::Text(row.http_version.clone()),
        number(s.status.map(|n| n as i64)),
        blob(&row.req_header_blob),
        blob(&row.resp_header_blob),
        Value::Text(row.req_body_ref.clone()),
        Value::Text(row.resp_body_ref.clone()),
        Value::Integer(row.req_body_total as i64),
        Value::Integer(row.resp_body_total as i64),
        Value::Integer(row.req_body_truncated as i64),
        Value::Integer(row.resp_body_truncated as i64),
        Value::Integer(s.req_size as i64),
        Value::Integer(s.resp_size as i64),
        Value::Text(row.client_addr.clone()),
        text(&row.tls_version),
        text(&row.alpn),
        text(&s.content_type),
        text(&s.error),
        Value::Text(row.tags.clone()),
    ]
}

fn summary_row(row: &Row) -> rusqlite::Result<SummaryRow> {
    Ok(SummaryRow {
        id: row.get(0)?,
        started_at: row.get(1)?,
        duration_ms: row.get(2)?,
        kind: row.get(3)?,
        scheme: row.get(4)?,
        method: row.get(5)?,
        host: row.get(6)?,
        path: row.get(7)?,
        query: row.get(8)?,
        status: row.get(9)?,
        req_size: row.get(10)?,
        resp_size: row.get(11)?,
        content_type: row.get(12)?,
        error: row.get(13)?,
    })
}

fn transaction_row(row: &Row) -> rusqlite::Result<TransactionRow> {
    Ok(TransactionRow {
        summary: summary_row(row)?,
        http_version: row.get(14)?,
        client_addr: row.get(15)?,
        tls_version: row.get(16)?,
        alpn: row.get(17)?,
        req_header_blob: row.get(18)?,
        resp_header_blob: row.get(19)?,
        req_body_ref: row.get(20)?,
        resp_body_ref: row.get(21)?,
        req_body_total: row.get(22)?,
        resp_body_total: row.get(23)?,
        req_body_truncated: row.get(24)?,
        resp_body_truncated: row.get(25)?,
        tags: row.get(26)?,
    })
}

impl Session {
    fn open() -> Session {
        let conn = Connection::open_in_memory().unwrap();
        conn.execute_batch(store::SCHEMA).unwrap();
        Session { conn, blobs: BTreeMap::new() }
    }

    fn max_id(&self) -> u64 {
        self.conn.query_row(store::SELECT_MAX_ID, [], |r| r.get(0)).unwrap()
    }

    fn put(&mut self, id: u64, kind: BodyKind, place: &BodyPlace, body: &[u8]) {
        match place {
            BodyPlace::Nowhere => {}
            BodyPlace::Inline => {
                self.conn
                    .execute(store::INSERT_BODY, (id, body_kind_name(kind), body))
                    .unwrap();
            }
            BodyPlace::File(name) => {
                self.blobs.insert(name.clone(), body.to_vec());
            }
        }
    }

    fn insert(&mut self, plan: InsertPlan) {
        let id = plan.row.summary.id;
        self.put(id, BodyKind::Req, &plan.req_place, &plan.req_body);
        self.put(id, BodyKind::Resp, &plan.resp_place, &plan.resp_body);
        self.conn
            .execute(store::INSERT_TRANSACTION, rusqlite::params_from_iter(columns(&plan.row)))
            .unwrap();
    }

    fn body(&self, id: u64, kind: BodyKind, place: BodyPlace) -> Option<Vec<u8>> {
        match place {
            BodyPlace::Nowhere => None,
            BodyPlace::Inline => self
                .conn
                .query_row(store::SELECT_BODY, (id, body_kind_name(kind)), |r| r.get(0))
                .optional()
                .unwrap(),
            BodyPlace::File(name) => self.blobs.get(&name).cloned(),
        }
    }

    fn get(&self, id: u64) -> Option<TransactionDetail> {
        let row = self
            .conn
            .query_row(store::SELECT_TRANSACTION, [id], transaction_row)
            .optional()
            .unwrap();
        let (req, resp) = match &row {
            Some(row) => (
                self.body(id, BodyKind::Req, load_body(&row.req_body_ref)),
                self.body(id, BodyKind::Resp, load_body(&row.resp_body_ref)),
            ),
            None => (None, None),
        };
        get(row, req, resp)
    }

    fn query(&self, filter: QueryFilter) -> Vec<TransactionSummary> {
        let q = query(&filter);
        let args: Vec<Value> = q
            .args
            .into_iter()
            .map(|a| match a {
                SqlValue::Text(s) => Value::Text(s),
                SqlValue::Integer(n) => Value::Integer(n),
            })
            .collect();
        let mut stmt = self.conn.prepare(&q.sql).unwrap();
        let rows = stmt.query_map(rusqlite::params_from_iter(args), summary_row).unwrap();
        rows.map(|row| row_to_summary(row.unwrap())).collect()
    }

    fn clear(&mut self) {
        let mut step = store::clear();
        loop {
            match step {
                ClearStep::DeleteRows => {
                    self.conn.execute(store::DELETE_TRANSACTIONS, []).unwrap();
                }
                ClearStep::DeleteBodies => {
                    self.conn.execute(store::DELETE_BODIES, []).unwrap();
                }
                ClearStep::RemoveBlobs => self.blobs.clear(),
                ClearStep::Done => return,
            }
            step = store::clear_next(step);
        }
    }

    fn parts(&self) -> Vec<StoredPart> {
        let mut parts = Vec::new();
        for (sql, row) in [(store::SELECT_ROW_SIZES, true), (store::SELECT_BODY_SIZES, false)] {
            let mut stmt = self.conn.prepare(sql).unwrap();
            let found = stmt
                .query_map([], |r| Ok(StoredPart { id: r.get(0)?, row, bytes: r.get(1)? }))
                .unwrap();
            parts.extend(found.map(|part| part.unwrap()));
        }
        let blobs = self.blobs.iter();
        parts.extend(blobs.filter_map(|(name, data)| blob_part(name, data.len() as u64)));
        parts
    }

    fn bytes(&self) -> u64 {
        self.parts().iter().map(|part| part.bytes).sum()
    }

    fn prune(&mut self, max_rows: u64, max_bytes: u64) {
        let mut step = match store::prune() {
            PruneStep::Measure { rows, bytes } => {
                assert_eq!((rows, bytes), (50_000, 2_000_000_000));
                PruneStep::Measure { rows: max_rows, bytes: max_bytes }
            }
            other => panic!("unexpected step: {other:?}"),
        };
        loop {
            let found = match step {
                PruneStep::Measure { .. } => PruneFound::Stored(self.parts()),
                PruneStep::DeleteRows { below } => {
                    self.conn.execute(store::DELETE_TRANSACTIONS_BELOW, [below]).unwrap();
                    PruneFound::Nothing
                }
                PruneStep::DeleteBodies { below } => {
                    self.conn.execute(store::DELETE_BODIES_BELOW, [below]).unwrap();
                    PruneFound::Nothing
                }
                PruneStep::RemoveBlobs { below } => {
                    self.blobs.retain(|name, _| !stale_blob(name, below));
                    PruneFound::Nothing
                }
                PruneStep::Done => return,
            };
            step = store::prune_next(step, found);
        }
    }
}

fn sample(id: u64, host: &str, body: Vec<u8>) -> CompletedTx {
    CompletedTx {
        summary: TransactionSummary {
            id,
            started_at_ms: 1_000 + id as i64,
            kind: "http".into(),
            scheme: "https".into(),
            method: "GET".into(),
            host: host.into(),
            path: "/api/items".into(),
            query: Some("page=1".into()),
            status: Some(200),
            duration_ms: Some(12),
            req_size: 0,
            resp_size: body.len() as u64,
            content_type: Some("application/json".into()),
            error: None,
            state: TxState::Completed,
        },
        http_version: "HTTP/1.1".into(),
        client_addr: "127.0.0.1:55555".into(),
        tls_version: Some("TLSv1.3".into()),
        alpn: Some("h2".into()),
        req_header_blob: b"accept: application/json\nhost: example.com\n".to_vec(),
        resp_header_blob: b"content-type: application/json\n".to_vec(),
        req_body: Vec::new(),
        req_body_total: 0,
        req_body_truncated: false,
        resp_body_total: body.len() as u64,
        resp_body: body,
        resp_body_truncated: false,
        tags: "{}".into(),
    }
}

#[test]
fn roundtrip_inline_and_spilled_bodies() {
    let mut session = Session::open();
    assert_eq!(session.max_id(), 0);

    session.insert(insert_plan(sample(1, "example.com", b"{\"ok\":true}".to_vec())));
    let big = vec![0xAB_u8; INLINE_BODY_LIMIT + 1024];
    session.insert(insert_plan(sample(2, "big.example.com", big.clone())));

    let d1 = session.get(1).unwrap();
    assert_eq!(d1.summary.host, "example.com");
    assert_eq!(d1.req_headers[0], ("accept".into(), "application/json".into()));
    let b64 = base64::engine::general_purpose::STANDARD;
    assert_eq!(b64.decode(d1.resp_body_base64).unwrap(), b"{\"ok\":true}");

    let d2 = session.get(2).unwrap();
    assert_eq!(b64.decode(d2.resp_body_base64).unwrap(), big);
    assert!(session.blobs.contains_key("2.resp"), "big body should spill to a file");

    assert!(session.get(99).is_none());
    assert_eq!(session.max_id(), 2);
}

#[test]
fn query_filters_and_clear() {
    let mut session = Session::open();
    for i in 1..=5 {
        let host = if i % 2 == 0 { "even.test" } else { "odd.test" };
        session.insert(insert_plan(sample(i, host, vec![])));
    }

    let all = session.query(QueryFilter::default());
    assert_eq!(all.len(), 5);
    assert_eq!(all[0].id, 5, "newest first");

    let evens =
        session.query(QueryFilter { host: Some("even.test".into()), ..Default::default() });
    assert_eq!(evens.len(), 2);

    let searched = session.query(QueryFilter { search: Some("odd".into()), ..Default::default() });
    assert_eq!(searched.len(), 3);

    let paged = session.query(QueryFilter { before_id: Some(3), ..Default::default() });
    assert_eq!(paged.len(), 2);

    session.clear();
    assert!(session.query(QueryFilter::default()).is_empty());
    assert_eq!(session.max_id(), 0);
}

#[test]
fn searches_are_substrings_without_wildcards() {
    let mut session = Session::open();
    session.insert(insert_plan(sample(1, "a_b.test", vec![])));
    session.insert(insert_plan(sample(2, "axb.test", vec![])));
    let mut tx = sample(3, "c.test", vec![]);
    tx.summary.path = "/100%\\done".into();
    session.insert(insert_plan(tx));
    let ids = |search: &str| -> Vec<u64> {
        let f = QueryFilter { search: Some(search.into()), ..Default::default() };
        session.query(f).iter().map(|s| s.id).collect()
    };
    assert_eq!(ids("a_b"), vec![1]);
    assert_eq!(ids("A_B"), vec![1]);
    assert_eq!(ids("%"), vec![3]);
    assert_eq!(ids("%\\d"), vec![3]);
    assert_eq!(ids("\\"), vec![3]);
    assert_eq!(ids("b.test"), vec![2, 1]);
    assert_eq!(ids(""), vec![3, 2, 1]);
    assert_eq!(ids("/api"), vec![2, 1]);
}

#[test]
fn every_condition_narrows_a_query() {
    let mut session = Session::open();
    for id in 1..=6 {
        let mut tx = sample(id, "h.test", vec![]);
        tx.summary.method = if id < 4 { "GET".into() } else { "POST".into() };
        tx.summary.status = if id % 2 == 0 { Some(404) } else { None };
        session.insert(insert_plan(tx));
    }
    let ids = |f: QueryFilter| -> Vec<u64> { session.query(f).iter().map(|s| s.id).collect() };
    assert_eq!(ids(QueryFilter { status: Some(404), ..Default::default() }), vec![6, 4, 2]);
    assert_eq!(ids(QueryFilter { method: Some("POST".into()), ..Default::default() }), vec![6, 5, 4]);
    let all = QueryFilter {
        search: Some("H.".into()),
        host: Some("h.test".into()),
        method: Some("POST".into()),
        status: Some(404),
        before_id: Some(6),
        limit: Some(10),
    };
    assert_eq!(ids(all), vec![4]);
    assert_eq!(ids(QueryFilter { limit: Some(2), ..Default::default() }), vec![6, 5]);
    assert_eq!(ids(QueryFilter { limit: Some(0), ..Default::default() }), Vec::<u64>::new());
    assert_eq!(ids(QueryFilter { before_id: Some(u64::MAX), ..Default::default() }).len(), 6);
    let next = QueryFilter { limit: Some(2), before_id: Some(5), ..Default::default() };
    assert_eq!(ids(next), vec![4, 3]);
}

#[test]
fn statements_hold_no_values() {
    let f = QueryFilter {
        search: Some("x' OR 1=1 --".into()),
        host: Some("\"; DROP TABLE bodies".into()),
        method: None,
        status: Some(200),
        before_id: None,
        limit: Some(9999),
    };
    let q = query(&f);
    assert_eq!(
        q.sql,
        "SELECT id, started_at, duration_ms, kind, scheme, method, host, path, query, status, \
         req_size, resp_size, content_type, error FROM transactions WHERE 1=1 \
         AND (host LIKE ?1 ESCAPE '\\' OR path LIKE ?1 ESCAPE '\\') AND host = ?2 AND status = ?3 \
         ORDER BY id DESC LIMIT 5000"
    );
    assert_eq!(q.args.len(), 3);
    assert!(matches!(&q.args[0], SqlValue::Text(s) if s == "%x' OR 1=1 --%"));
    assert!(matches!(&q.args[2], SqlValue::Integer(200)));
    assert!(query(&QueryFilter::default()).sql.ends_with("WHERE 1=1 ORDER BY id DESC LIMIT 500"));
}

#[test]
fn statements_depend_on_the_shape_of_a_filter_only() {
    let a = QueryFilter { host: Some("a".into()), before_id: Some(1), ..Default::default() };
    let b = QueryFilter { host: Some("b' --".into()), before_id: Some(77), ..Default::default() };
    assert_eq!(query(&a).sql, query(&b).sql);
    let c = QueryFilter { method: Some("a".into()), before_id: Some(1), ..Default::default() };
    assert_ne!(query(&a).sql, query(&c).sql);
}

#[test]
fn an_exchange_is_shown_as_it_was() {
    let mut fields = http::HeaderMap::new();
    fields.append("cookie", "a=1".parse().unwrap());
    fields.append("cookie", "b: 2".parse().unwrap());
    let mut ctx = connect_record(8, 1000, "h.test", 443, "127.0.0.1:5");
    ctx.data.req_header_blob = serialize_headers(&fields);
    let mut guard = CaptureGuard::new(4);
    guard.push(b"abc");
    guard.push(b"def");
    let req = guard.finish(true).unwrap();
    let f = finish_transaction(&mut ctx, Some(5), 1, 2, req, CapturedBody::default());
    let mut session = Session::open();
    session.insert(insert_plan(f.completed));
    let d = session.get(8).unwrap();
    assert_eq!(d.summary.id, 8);
    assert_eq!(d.summary.host, "h.test");
    assert_eq!(d.summary.state, TxState::Completed);
    assert_eq!(d.summary.duration_ms, Some(5));
    assert_eq!((d.summary.req_size, d.summary.resp_size), (1, 2));
    let expected: Vec<(String, String)> =
        vec![("cookie".into(), "a=1".into()), ("cookie".into(), "b: 2".into())];
    assert_eq!(d.req_headers, expected);
    assert!(d.resp_headers.is_empty());
    assert_eq!(d.req_body_base64, "YWJjZA==");
    assert_eq!(d.req_body_total, 6);
    assert!(d.req_body_truncated);
    assert_eq!(d.resp_body_base64, "");
    assert_eq!(d.tags, "{}");
}

#[test]
fn bodies_go_where_they_fit() {
    let plan = body_ref_and_store(7, BodyKind::Req, b"");
    assert_eq!(plan.body_ref, "none");
    assert!(matches!(plan.place, BodyPlace::Nowhere));
    let plan = body_ref_and_store(7, BodyKind::Req, &vec![1; INLINE_BODY_LIMIT]);
    assert_eq!(plan.body_ref, "inline");
    assert!(matches!(plan.place, BodyPlace::Inline));
    let plan = body_ref_and_store(70, BodyKind::Req, &vec![1; INLINE_BODY_LIMIT + 1]);
    assert_eq!(plan.body_ref, "file:70.req");
    assert!(matches!(plan.place, BodyPlace::File(name) if name == "70.req"));
}

#[test]
fn references_are_resolved() {
    assert!(matches!(load_body("none"), BodyPlace::Nowhere));
    assert!(matches!(load_body("inline"), BodyPlace::Inline));
    assert!(matches!(load_body("file:2.resp"), BodyPlace::File(name) if name == "2.resp"));
    assert!(matches!(load_body("file:"), BodyPlace::File(name) if name.is_empty()));
    assert!(matches!(load_body("elsewhere"), BodyPlace::Nowhere));
    assert!(matches!(load_body(""), BodyPlace::Nowhere));
}

#[test]
fn inserting_again_replaces_a_transaction_and_no_other() {
    let mut session = Session::open();
    let big = vec![1_u8; INLINE_BODY_LIMIT + 1];
    session.insert(insert_plan(sample(1, "one.test", big.clone())));
    session.insert(insert_plan(sample(12, "twelve.test", b"inline".to_vec())));
    session.insert(insert_plan(sample(1, "again.test", Vec::new())));
    let b64 = base64::engine::general_purpose::STANDARD;
    let d = session.get(1).unwrap();
    assert_eq!(d.summary.host, "again.test");
    assert_eq!(d.resp_body_base64, "");
    let d = session.get(12).unwrap();
    assert_eq!(d.summary.host, "twelve.test");
    assert_eq!(b64.decode(d.resp_body_base64).unwrap(), b"inline");
}

#[test]
fn a_detail_shows_all_that_was_stored() {
    let mut session = Session::open();
    let mut tx = sample(5, "h.test", b"resp".to_vec());
    tx.req_body = b"req".to_vec();
    tx.req_body_total = 300;
    tx.req_body_truncated = true;
    tx.summary.error = Some("tunnel error: reset".into());
    tx.tags = "{ \"rule\" : [1, 2] }".into();
    for plan in insert_batch(vec![tx, sample(6, "g.test", Vec::new())]) {
        session.insert(plan);
    }
    let d = session.get(5).unwrap();
    assert_eq!(d.summary.state, TxState::Failed);
    assert_eq!(d.summary.error.as_deref(), Some("tunnel error: reset"));
    assert_eq!(d.summary.started_at_ms, 1005);
    assert_eq!(d.summary.duration_ms, Some(12));
    assert_eq!(d.summary.query.as_deref(), Some("page=1"));
    assert_eq!(d.http_version, "HTTP/1.1");
    assert_eq!(d.client_addr, "127.0.0.1:55555");
    assert_eq!(d.tls_version.as_deref(), Some("TLSv1.3"));
    assert_eq!(d.alpn.as_deref(), Some("h2"));
    assert_eq!(d.req_body_base64, "cmVx");
    assert_eq!(d.req_body_total, 300);
    assert!(d.req_body_truncated);
    assert_eq!(d.resp_body_base64, "cmVzcA==");
    assert_eq!(d.resp_body_total, 4);
    assert!(!d.resp_body_truncated);
    assert_eq!(d.tags, "{\"rule\":[1,2]}");
    assert_eq!(session.get(6).unwrap().summary.state, TxState::Completed);
}

#[test]
fn tags_that_are_no_json_are_null() {
    let mut session = Session::open();
    let mut tx = sample(1, "h.test", Vec::new());
    tx.tags = "not json".into();
    session.insert(insert_plan(tx));
    assert_eq!(session.get(1).unwrap().tags, "null");
    assert_eq!(tags_or_null(None), "null");
    assert_eq!(tags_or_null(Some("{}".into())), "{}");
}

#[test]
fn a_row_without_headers_has_none() {
    let plan = insert_plan(sample(1, "h.test", Vec::new()));
    let row = TransactionRow { req_header_blob: None, ..plan.row };
    let d = get(Some(row), None, Some(b"x".to_vec())).unwrap();
    assert!(d.req_headers.is_empty());
    assert_eq!(d.resp_headers.len(), 1);
    assert_eq!(d.resp_body_base64, "eA==");
    assert!(get(None, None, None).is_none());
}

#[test]
fn inserts_are_parted_from_other_requests() {
    let pending = vec![
        (StoreRequest::Get(1), 'a'),
        (StoreRequest::Insert(sample(1, "h", Vec::new())), 'b'),
        (StoreRequest::Clear, 'c'),
        (StoreRequest::Insert(sample(2, "h", Vec::new())), 'd'),
        (StoreRequest::Query(QueryFilter::default()), 'e'),
    ];
    let batch = split_batch(pending);
    let inserts: Vec<(u64, char)> =
        batch.inserts.iter().map(|(tx, reply)| (tx.summary.id, *reply)).collect();
    assert_eq!(inserts, vec![(1, 'b'), (2, 'd')]);
    let others: Vec<char> = batch.others.iter().map(|(_, reply)| *reply).collect();
    assert_eq!(others, vec!['a', 'c', 'e']);
    assert!(!store::batch_full(255));
    assert!(store::batch_full(256));
}

#[test]
fn pruning_is_due_after_so_many_inserts() {
    let mut counter = PruneCounter::new();
    assert!(!counter.inserted(256));
    assert!(!counter.inserted(243));
    assert!(counter.inserted(1));
    assert!(!counter.inserted(499));
    assert!(counter.inserted(256));
    assert!(!counter.inserted(0));
}

#[test]
fn pruning_keeps_the_newest() {
    let mut session = Session::open();
    let big = vec![1_u8; INLINE_BODY_LIMIT + 1];
    for id in 1..=12 {
        let body = if id % 2 == 0 { big.clone() } else { b"inline".to_vec() };
        session.insert(insert_plan(sample(id, "h.test", body)));
    }
    session.blobs.insert("notes".into(), Vec::new());
    session.blobs.insert("x.resp".into(), Vec::new());
    session.prune(3, u64::MAX);
    let ids: Vec<u64> = session.query(QueryFilter::default()).iter().map(|s| s.id).collect();
    assert_eq!(ids, vec![12, 11, 10]);
    let names: Vec<&String> = session.blobs.keys().collect();
    assert_eq!(names, vec!["10.resp", "12.resp", "notes", "x.resp"]);
    assert!(session.body(9, BodyKind::Resp, BodyPlace::Inline).is_none());
    assert!(session.body(11, BodyKind::Resp, BodyPlace::Inline).is_some());
    session.prune(3, u64::MAX);
    assert_eq!(session.query(QueryFilter::default()).len(), 3);
}

#[test]
fn pruning_leaves_an_empty_or_small_store_alone() {
    let mut session = Session::open();
    session.blobs.insert("0.resp".into(), Vec::new());
    session.prune(3, u64::MAX);
    session.insert(insert_plan(sample(1, "h.test", Vec::new())));
    session.prune(3, u64::MAX);
    assert_eq!(session.query(QueryFilter::default()).len(), 1);
    assert!(session.blobs.contains_key("0.resp"));
}

#[test]
fn pruning_keeps_what_is_stored_below_a_size() {
    let mut session = Session::open();
    let big = vec![1_u8; INLINE_BODY_LIMIT + 1];
    for id in 1..=12 {
        let body = if id % 2 == 0 { big.clone() } else { vec![2_u8; 100_000] };
        session.insert(insert_plan(sample(id, "h.test", body)));
    }
    let all = session.bytes();
    assert!(all > 6 * (INLINE_BODY_LIMIT as u64 + 1) + 6 * 100_000);
    session.prune(50_000, all);
    assert_eq!(session.bytes(), all);
    session.prune(50_000, 1_000_000);
    let ids: Vec<u64> = session.query(QueryFilter::default()).iter().map(|s| s.id).collect();
    assert_eq!(ids, vec![12, 11, 10, 9, 8]);
    assert!(session.bytes() <= 1_000_000);
    let names: Vec<&String> = session.blobs.keys().collect();
    assert_eq!(names, vec!["10.resp", "12.resp", "8.resp"]);
    session.prune(50_000, 10);
    assert_eq!(session.bytes(), 0);
    assert!(session.blobs.is_empty());
}

#[test]
fn bodies_without_a_row_are_pruned_too() {
    let mut session = Session::open();
    session.blobs.insert("1.resp".into(), vec![0_u8; 500]);
    session.insert(insert_plan(sample(2, "h.test", b"x".to_vec())));
    let row = session.parts().iter().find(|part| part.row).unwrap().bytes;
    session.prune(50_000, row + 1);
    assert!(session.blobs.is_empty());
    assert_eq!(session.query(QueryFilter::default()).len(), 1);
}

#[test]
fn nothing_is_left_below_the_oldest_row_that_is_kept() {
    let mut session = Session::open();
    for id in [1, 10, 11, 12] {
        session.insert(insert_plan(sample(id, "h.test", b"x".to_vec())));
    }
    session.blobs.insert("5.resp".into(), vec![0_u8; 3]);
    session.blobs.insert("20.resp".into(), vec![0_u8; 3]);
    session.prune(4, u64::MAX);
    assert!(session.blobs.contains_key("5.resp"));
    session.prune(3, u64::MAX);
    let ids: Vec<u64> = session.query(QueryFilter::default()).iter().map(|s| s.id).collect();
    assert_eq!(ids, vec![12, 11, 10]);
    let names: Vec<&String> = session.blobs.keys().collect();
    assert_eq!(names, vec!["20.resp"]);

    let part = |id: u64, row: bool| StoredPart { id, row, bytes: 1 };
    let stored = vec![part(1, true), part(5, false), part(12, true), part(10, true)];
    let step = PruneStep::Measure { rows: 2, bytes: 100 };
    let next = store::prune_next(step, PruneFound::Stored(stored));
    assert_eq!(next, PruneStep::DeleteRows { below: 10 });
    let step = PruneStep::Measure { rows: 2, bytes: 0 };
    let next = store::prune_next(step, PruneFound::Stored(vec![part(1, true), part(5, false)]));
    assert_eq!(next, PruneStep::DeleteRows { below: 6 });
}

#[test]
fn the_inserts_of_a_batch_are_answered_alike() {
    let answers = answer_inserts(vec!['a', 'b'], Err("disk full".to_string()));
    let expected = Err("disk full".to_string());
    assert_eq!(answers, vec![('a', expected.clone()), ('b', expected)]);
    assert_eq!(answer_inserts(vec!['c'], Ok(())), vec![('c', Ok(()))]);
    assert!(answer_inserts(Vec::<char>::new(), Ok(())).is_empty());
}

#[test]
fn a_row_takes_its_texts_headers_and_numbers() {
    let mut session = Session::open();
    let plan = insert_plan(sample(7, "h\u{fc}.test", b"x".to_vec()));
    let s = &plan.row.summary;
    let mut expected = 80;
    for text in [&s.kind, &s.scheme, &s.method, &s.host, &s.path] {
        expected += text.len();
    }
    for text in [&s.query, &s.content_type, &s.error, &plan.row.tls_version, &plan.row.alpn] {
        expected += text.as_ref().map_or(0, |t| t.len());
    }
    let row = &plan.row;
    for text in [
        &row.http_version,
        &row.client_addr,
        &row.req_body_ref,
        &row.resp_body_ref,
        &row.tags,
    ] {
        expected += text.len();
    }
    for blob in [&row.req_header_blob, &row.resp_header_blob] {
        expected += blob.as_ref().map_or(0, |b| b.len());
    }
    session.insert(plan);
    let parts = session.parts();
    assert_eq!(parts[0], StoredPart { id: 7, row: true, bytes: expected as u64 });
    assert_eq!(parts[1], StoredPart { id: 7, row: false, bytes: 1 });
    assert_eq!(parts.len(), 2);
}

#[test]
fn the_lowest_identifier_that_fits_is_kept() {
    let part = |id: u64, row: bool, bytes: u64| StoredPart { id, row, bytes };
    let parts = vec![part(5, true, 10), part(9, true, 10), part(9, false, 5), part(7, true, 10)];
    assert_eq!(find_oldest_kept(&parts, 3, 35), 0);
    assert_eq!(find_oldest_kept(&parts, 2, 35), 6);
    assert_eq!(find_oldest_kept(&parts, 3, 34), 6);
    assert_eq!(find_oldest_kept(&parts, 3, 24), 8);
    assert_eq!(find_oldest_kept(&parts, 3, 14), 10);
    assert_eq!(find_oldest_kept(&Vec::new(), 0, 0), 0);
    let huge = vec![part(1, true, u64::MAX), part(2, true, u64::MAX)];
    assert_eq!(find_oldest_kept(&huge, 9, u64::MAX), 2);
    assert_eq!(blob_part("12.resp", 3), Some(part(12, false, 3)));
    assert_eq!(blob_part("notes", 3), None);
}

#[test]
fn stale_blobs_are_told_by_their_names() {
    assert!(stale_blob("9.resp", 10));
    assert!(!stale_blob("10.resp", 10));
    assert!(stale_blob("+9.resp", 10));
    assert!(stale_blob("009.x.y", 10));
    assert!(!stale_blob("9", 10));
    assert!(!stale_blob(".resp", 10));
    assert!(!stale_blob("-1.resp", 10));
    assert!(!stale_blob("99999999999999999999999.resp", 10));
}

#[test]
fn a_read_sees_the_inserts_that_were_answered_before_it() {
    let mut session = Session::open();
    let rounds = vec![
        vec![
            (StoreRequest::Get(2), 'a'),
            (StoreRequest::Insert(sample(1, "h.test", b"one".to_vec())), 'b'),
            (StoreRequest::Insert(sample(2, "h.test", b"two".to_vec())), 'c'),
        ],
        vec![(StoreRequest::Insert(sample(3, "h.test", Vec::new())), 'd')],
        vec![(StoreRequest::Get(1), 'e'), (StoreRequest::Clear, 'f'), (StoreRequest::Get(1), 'g')],
    ];
    let mut seen = Vec::new();
    for pending in rounds {
        let batch = split_batch(pending);
        for (tx, _) in batch.inserts {
            session.insert(insert_plan(tx));
        }
        for (request, whom) in batch.others {
            match request {
                StoreRequest::Get(id) => seen.push((whom, session.get(id).is_some())),
                StoreRequest::Clear => session.clear(),
                other => panic!("unexpected request: {other:?}"),
            }
        }
    }
    assert_eq!(seen, vec![('a', true), ('e', true), ('g', false)]);
}
