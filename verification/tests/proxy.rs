use http::HeaderMap;
use httpmate_core::chain::{Chain, ChainStep, RequestAction};
use httpmate_core::config::ProxySettings;
use httpmate_core::events::{ProxyEvent, TxState};
use httpmate_core::intercept::{Recorder, TransactionCtx, TxData};
use httpmate_core::passthrough::{any_matches, pattern_matches};
use httpmate_core::proxy::{
    alpn_protocols, bad_target, certificate_name, connect_authority, connect_record,
    finish_transaction, prepare_upstream, recorded_size, request_record, route, tls_meta,
    tunnel_ended, tunnel_unreachable, upstream_failed, upstream_replied, wants_upgrade,
    ConnectAction, Engine, Reply, RequestHead, Route, TlsMeta, TunnelBytes, TunnelError, TxIds,
};
use httpmate_core::tee::CapturedBody;
use httpmate_core::uri::{absolute_form, absolute_uri, assembled, display_host, UriParts};

#[test]
fn passthrough_patterns() {
    assert!(pattern_matches("example.com", "EXAMPLE.com"));
    assert!(!pattern_matches("example.com", "sub.example.com"));
    assert!(pattern_matches("*.example.com", "sub.example.com"));
    assert!(pattern_matches("*.example.com", "a.b.example.com"));
    assert!(!pattern_matches("*.example.com", "example.com"));
    assert!(!pattern_matches("*.example.com", "notexample.com"));
}

#[test]
fn passthrough_patterns_at_the_edges() {
    assert!(pattern_matches("*.EXAMPLE.com", "Sub.example.COM"));
    assert!(!pattern_matches("*.example.com", ".example.com"));
    assert!(pattern_matches("*.", "host."));
    assert!(!pattern_matches("*.", "."));
    assert!(pattern_matches("", ""));
    assert!(pattern_matches("*.bücher.de", "a.bücher.de"));
    assert!(!pattern_matches("BÜCHER.de", "bücher.de"));
    assert!(any_matches(&vec!["a.test".into(), "*.b.test".into()], "x.b.test"));
    assert!(!any_matches(&vec!["a.test".into(), "*.b.test".into()], "b.test"));
    assert!(!any_matches(&Vec::new(), "b.test"));
}

/// A target in origin form.
fn origin_form(path_and_query: &str) -> UriParts {
    let (path, query) = match path_and_query.split_once('?') {
        Some((p, q)) => (p.to_string(), Some(q.to_string())),
        None => (path_and_query.to_string(), None),
    };
    UriParts {
        text: path_and_query.to_string(),
        scheme: None,
        authority: None,
        host: None,
        port: None,
        path,
        query,
        path_and_query: Some(path_and_query.to_string()),
    }
}

/// A target in authority form.
fn authority_form(host: Option<&str>, port: Option<u16>) -> UriParts {
    UriParts {
        text: host.unwrap_or("").to_string(),
        scheme: None,
        authority: host.map(|h| h.to_string()),
        host: host.map(|h| h.to_string()),
        port,
        path: String::new(),
        query: None,
        path_and_query: None,
    }
}

#[test]
fn a_target_inside_a_connect_becomes_absolute() {
    let uri = absolute_uri(
        origin_form("/secret?x=1&y=%20"),
        "https",
        &Some("localhost:8443".to_string()),
    )
    .unwrap();
    assert_eq!(uri.text, "https://localhost:8443/secret?x=1&y=%20");
    assert_eq!(uri.scheme.as_deref(), Some("https"));
    assert_eq!(uri.authority.as_deref(), Some("localhost:8443"));
    assert_eq!(uri.host.as_deref(), Some("localhost"));
    assert_eq!(uri.port, Some(8443));
    assert_eq!(uri.path, "/secret");
    assert_eq!(uri.query.as_deref(), Some("x=1&y=%20"));
    assert_eq!(uri.path_and_query.as_deref(), Some("/secret?x=1&y=%20"));
}

#[test]
fn an_own_authority_goes_before_that_of_the_connect() {
    let uri = absolute_uri(
        authority_form(Some("own.test"), None),
        "https",
        &Some("connect.test".to_string()),
    )
    .unwrap();
    assert_eq!(uri.text, "https://own.test/");
    assert_eq!(uri.path, "/");
    assert_eq!(uri.port, None);
}

#[test]
fn an_absolute_target_stays_as_it_is() {
    let target = absolute_uri(origin_form("/a"), "http", &Some("h:81".to_string())).unwrap();
    let again = absolute_uri(target, "https", &Some("elsewhere".to_string())).unwrap();
    assert_eq!(again.text, "http://h:81/a");
    assert_eq!(again.scheme.as_deref(), Some("http"));
}

#[test]
fn targets_without_authority_or_form_are_refused() {
    let err = absolute_uri(origin_form("/a"), "http", &None).unwrap_err();
    assert_eq!(err, "request has no authority and no CONNECT context");
    assert_eq!(bad_target(&err).status, 400);
    assert_eq!(bad_target(&err).body, "request has no authority and no CONNECT context\n");

    let err = absolute_uri(origin_form("/a"), "https", &Some("bad host".to_string())).unwrap_err();
    assert_eq!(err, "assembling absolute request URI: invalid uri character");
    assert_eq!(
        assembled(Err("why".to_string())).unwrap_err(),
        "assembling absolute request URI: why"
    );
}

#[test]
fn absolute_forms_are_assembled_from_their_parts() {
    assert_eq!(
        absolute_form(&origin_form("/p?q"), "https", &Some("a:1".to_string())),
        Some("https://a:1/p?q".to_string())
    );
    assert_eq!(
        absolute_form(&authority_form(Some("b"), None), "http", &None),
        Some("http://b/".to_string())
    );
    assert_eq!(absolute_form(&origin_form("/"), "http", &None), None);
}

#[test]
fn default_ports_are_not_displayed() {
    assert_eq!(display_host("h", None, "http"), "h");
    assert_eq!(display_host("h", Some(80), "http"), "h");
    assert_eq!(display_host("h", Some(443), "https"), "h");
    assert_eq!(display_host("h", Some(443), "http"), "h:443");
    assert_eq!(display_host("h", Some(80), "https"), "h:80");
    assert_eq!(display_host("127.0.0.1", Some(65535), "http"), "127.0.0.1:65535");
    assert_eq!(display_host("h", Some(0), "ws"), "h:0");
}

#[test]
fn requests_are_routed() {
    assert!(matches!(route("CONNECT", &authority_form(Some("h"), None)), Route::Connect));
    let absolute = absolute_uri(origin_form("/"), "http", &Some("h".to_string())).unwrap();
    assert!(matches!(route("GET", &absolute), Route::Forward));
    match route("GET", &origin_form("/")) {
        Route::Explain(reply) => {
            assert_eq!(reply.status, 400);
            assert_eq!(
                reply.body,
                "httpmate is an HTTP proxy. Point your client's HTTP(S) proxy at this address \
                 instead of browsing to it directly.\n"
            );
        }
        other => panic!("unexpected route: {other:?}"),
    }
}

fn engine(patterns: &[&str]) -> Engine {
    let mut settings = ProxySettings::default();
    settings.passthrough_hosts = patterns.iter().map(|p| p.to_string()).collect();
    Engine::new(settings)
}

#[test]
fn connects_are_tunneled_or_intercepted() {
    let e = engine(&["localhost"]);
    match e.handle_connect(&authority_form(Some("localhost"), Some(8443))) {
        ConnectAction::Tunnel { host, port } => {
            assert_eq!(host, "localhost");
            assert_eq!(port, 8443);
        }
        other => panic!("unexpected action: {other:?}"),
    }
    match e.handle_connect(&authority_form(Some("example.com"), None)) {
        ConnectAction::Intercept { host, port } => {
            assert_eq!(host, "example.com");
            assert_eq!(port, 443);
        }
        other => panic!("unexpected action: {other:?}"),
    }
    match e.handle_connect(&authority_form(None, None)) {
        ConnectAction::Refuse(reply) => {
            assert_eq!(reply.status, 400);
            assert_eq!(reply.body, "CONNECT requires an authority\n");
        }
        other => panic!("unexpected action: {other:?}"),
    }
}

#[test]
fn a_host_that_rejects_the_certificate_is_tunneled_from_then_on() {
    let mut e = engine(&[]);
    assert!(!e.is_passthrough("pinned.test"));
    let ctx = e.record_handshake_failure(9, 123, "pinned.test", 443, "127.0.0.1:5", "bad cert");
    assert!(e.is_passthrough("pinned.test"));
    assert!(!e.is_passthrough("PINNED.test"));
    assert!(!e.is_passthrough("other.test"));
    assert_eq!(ctx.data.id, 9);
    assert_eq!(ctx.data.started_at_ms, 123);
    assert_eq!(ctx.data.kind, "tunnel");
    assert_eq!(ctx.data.method, "CONNECT");
    assert_eq!(ctx.data.host, "pinned.test");
    assert_eq!(
        ctx.data.error.as_deref(),
        Some(
            "client rejected the intercept certificate for pinned.test:443 (bad cert); \
             the host may use certificate pinning — it will be tunneled opaquely from now on"
        )
    );
}

#[test]
fn identifiers_go_on_after_the_stored_ones() {
    let mut ids = TxIds::new(41);
    assert_eq!(ids.next_id(), 42);
    assert_eq!(ids.next_id(), 43);
    let mut ids = TxIds::new(u64::MAX - 1);
    assert_eq!(ids.next_id(), u64::MAX);
    assert_eq!(ids.next_id(), 0);
}

#[test]
fn tunnels_are_recorded_with_byte_counts() {
    let mut ctx = connect_record(3, 1000, "localhost", 8443, "127.0.0.1:5");
    assert_eq!(ctx.data.kind, "tunnel");
    assert_eq!(ctx.data.scheme, "https");
    assert_eq!(ctx.data.method, "CONNECT");
    assert_eq!(ctx.data.host, "localhost:8443");
    assert_eq!(ctx.data.path, "");
    assert_eq!(ctx.data.http_version, "HTTP/1.1");
    assert_eq!(ctx.data.client_addr, "127.0.0.1:5");
    let bytes = tunnel_ended(&mut ctx, Ok(TunnelBytes { sent: 10, received: 20 }));
    assert_eq!((bytes.sent, bytes.received), (10, 20));
    assert!(ctx.data.error.is_none());
    let broken = TunnelError {
        message: "reset".to_string(),
        bytes: TunnelBytes { sent: 3, received: 4 },
    };
    let bytes = tunnel_ended(&mut ctx, Err(broken));
    assert_eq!((bytes.sent, bytes.received), (3, 4));
    assert_eq!(ctx.data.error.as_deref(), Some("tunnel error: reset"));

    let reply = tunnel_unreachable("h", 1, "refused");
    assert_eq!(reply.status, 502);
    assert_eq!(reply.body, "could not reach h:1: refused\n");
}

#[test]
fn tls_sessions_are_described() {
    let meta = tls_meta(&Some("TLSv1_3".to_string()), &Some(b"h2".to_vec()));
    assert_eq!(meta.version.as_deref(), Some("TLSv1.3"));
    assert_eq!(meta.alpn.as_deref(), Some("h2"));
    let meta = tls_meta(&None, &Some(b"\xff".to_vec()));
    assert_eq!(meta.version, None);
    assert_eq!(meta.alpn.as_deref(), Some("\u{fffd}"));
    assert_eq!(tls_meta(&None, &None).alpn, None);
    assert_eq!(TlsMeta::default().version, None);
}

#[test]
fn connections_are_set_up_for_a_host() {
    assert_eq!(connect_authority("h", 443), "h");
    assert_eq!(connect_authority("h", 8443), "h:8443");
    assert_eq!(alpn_protocols(), vec![b"h2".to_vec(), b"http/1.1".to_vec()]);
    assert_eq!(certificate_name(Some("sni.test".to_string()), "connect.test"), "sni.test");
    assert_eq!(certificate_name(None, "connect.test"), "connect.test");
}

fn sample_request() -> TransactionCtx {
    let mut h = HeaderMap::new();
    h.insert("x-test-marker", "abc".parse().unwrap());
    let target =
        absolute_uri(origin_form("/things?page=1"), "https", &Some("127.0.0.1:8443".to_string()))
            .unwrap();
    let tls = Some(TlsMeta { version: Some("TLSv1.3".into()), alpn: Some("h2".into()) });
    let head = RequestHead {
        scheme: "https",
        method: "POST",
        http_version: "HTTP/2.0",
        client_addr: "127.0.0.1:5",
        tls: &tls,
    };
    request_record(7, 1234, head, &target, &h)
}

#[test]
fn a_request_is_recorded() {
    let d = sample_request().data;
    assert_eq!(d.id, 7);
    assert_eq!(d.started_at_ms, 1234);
    assert_eq!(d.kind, "http");
    assert_eq!(d.scheme, "https");
    assert_eq!(d.method, "POST");
    assert_eq!(d.host, "127.0.0.1:8443");
    assert_eq!(d.path, "/things");
    assert_eq!(d.query.as_deref(), Some("page=1"));
    assert_eq!(d.http_version, "HTTP/2.0");
    assert_eq!(d.client_addr, "127.0.0.1:5");
    assert_eq!(d.tls_version.as_deref(), Some("TLSv1.3"));
    assert_eq!(d.alpn.as_deref(), Some("h2"));
    assert_eq!(d.req_header_blob, b"x-test-marker: abc\n".to_vec());
    assert_eq!(d.tags, "{}");
}

#[test]
fn the_recorder_tells_of_request_and_response() {
    let mut ctx = sample_request();
    let recorder = Recorder;
    match recorder.on_request(&ctx) {
        ProxyEvent::TransactionStarted(s) => {
            assert_eq!(s.id, 7);
            assert_eq!(s.state, TxState::Active);
            assert_eq!(s.status, None);
        }
        other => panic!("unexpected event: {other:?}"),
    }
    let mut h = HeaderMap::new();
    h.insert("content-type", "text/html".parse().unwrap());
    match recorder.on_response(&mut ctx, 200, &h) {
        ProxyEvent::TransactionUpdated(s) => {
            assert_eq!(s.status, Some(200));
            assert_eq!(s.content_type.as_deref(), Some("text/html"));
            assert_eq!(s.state, TxState::Active);
        }
        other => panic!("unexpected event: {other:?}"),
    }
    assert_eq!(ctx.data.resp_header_blob, b"content-type: text/html\n".to_vec());
}

#[test]
fn headers_are_prepared_for_upstream() {
    let mut h = HeaderMap::new();
    h.insert("host", "h".parse().unwrap());
    h.insert("connection", "upgrade".parse().unwrap());
    h.insert("upgrade", "websocket".parse().unwrap());
    h.insert("accept", "*/*".parse().unwrap());
    assert!(wants_upgrade(&h));
    let mut kept = h.clone();
    prepare_upstream(&mut kept, true);
    assert_eq!(kept.len(), 3);
    assert!(!kept.contains_key("host"));
    prepare_upstream(&mut h, false);
    assert_eq!(h.len(), 1);
    assert!(!wants_upgrade(&h));
}

#[test]
fn upstream_failures_are_recorded_and_answered() {
    let mut ctx = sample_request();
    let reply = upstream_failed(&mut ctx, "connection refused");
    assert_eq!(reply.status, 502);
    assert_eq!(reply.body, "upstream request failed: connection refused\n");
    assert_eq!(ctx.data.error.as_deref(), Some("upstream request failed: connection refused"));
    let f = finish_transaction(
        &mut ctx,
        Some(1),
        0,
        0,
        CapturedBody::default(),
        CapturedBody::default(),
    );
    assert_eq!(f.completed.summary.state, TxState::Failed);
}

#[test]
fn responses_lose_hop_headers_unless_protocols_switch() {
    let mut h = HeaderMap::new();
    h.insert("connection", "upgrade".parse().unwrap());
    h.insert("upgrade", "websocket".parse().unwrap());
    let mut ctx = sample_request();
    let mut plain = h.clone();
    assert_eq!(upstream_replied(&mut ctx, 200, &mut plain), Reply::Relay);
    assert!(plain.is_empty());
    assert_eq!(ctx.data.kind, "http");
    assert_eq!(upstream_replied(&mut ctx, 101, &mut h), Reply::Switch);
    assert_eq!(h.len(), 2);
    assert_eq!(ctx.data.kind, "ws-upgrade");
}

#[test]
fn a_finished_transaction_holds_all_that_is_known() {
    let mut ctx = sample_request();
    let mut h = HeaderMap::new();
    h.insert("x-origin", "httpmate-test".parse().unwrap());
    Recorder.on_response(&mut ctx, 200, &h);
    let req = CapturedBody { bytes: b"ping".to_vec(), total: 4, truncated: false, completed: true };
    let resp = CapturedBody { bytes: b"po".to_vec(), total: 9, truncated: true, completed: true };
    let req_size = recorded_size(&ctx.data.req_header_blob, req.total);
    let resp_size = recorded_size(&ctx.data.resp_header_blob, resp.total);
    assert_eq!(req_size, 19 + 4);
    let f = finish_transaction(&mut ctx, Some(12), req_size, resp_size, req, resp);
    let tx = f.completed;
    assert_eq!(tx.summary.id, 7);
    assert_eq!(tx.summary.state, TxState::Completed);
    assert_eq!(tx.summary.duration_ms, Some(12));
    assert_eq!(tx.summary.req_size, 23);
    assert_eq!(tx.summary.resp_size, 24 + 9);
    assert_eq!(tx.req_header_blob, b"x-test-marker: abc\n".to_vec());
    assert_eq!(tx.resp_header_blob, b"x-origin: httpmate-test\n".to_vec());
    assert_eq!(tx.req_body, b"ping".to_vec());
    assert_eq!(tx.resp_body, b"po".to_vec());
    assert_eq!(tx.resp_body_total, 9);
    assert!(tx.resp_body_truncated);
    assert_eq!(tx.tls_version.as_deref(), Some("TLSv1.3"));
    assert!(ctx.data.req_header_blob.is_empty());
    assert!(matches!(f.event, ProxyEvent::TransactionCompleted(s) if s.id == 7));
}

#[test]
fn nothing_is_known_of_a_blank_transaction() {
    let ctx = TransactionCtx::new(TxData::default());
    let s = ctx.summary_sized(TxState::Completed, Some(3), 1, 2);
    assert_eq!(s.id, 0);
    assert_eq!(s.kind, "");
    assert_eq!((s.duration_ms, s.req_size, s.resp_size), (Some(3), 1, 2));
    assert_eq!(ctx.summary(TxState::Active).duration_ms, None);
}

/// Every step of a pass, where interceptor `responder` answers.
fn pass(count: usize, responder: Option<usize>) -> Vec<ChainStep> {
    let mut chain = Chain::new(count);
    let mut steps = Vec::new();
    loop {
        let step = chain.step();
        steps.push(step);
        let action = match step {
            ChainStep::Done => return steps,
            ChainStep::Request(i) if Some(i) == responder => RequestAction::Respond,
            _ => RequestAction::Continue,
        };
        chain.advance(action);
    }
}

#[test]
fn requests_go_down_and_responses_up_the_chain() {
    assert_eq!(pass(0, None), vec![ChainStep::Forward, ChainStep::Done]);
    assert_eq!(
        pass(3, None),
        vec![
            ChainStep::Request(0),
            ChainStep::Request(1),
            ChainStep::Request(2),
            ChainStep::Forward,
            ChainStep::Response(2),
            ChainStep::Response(1),
            ChainStep::Response(0),
            ChainStep::Done
        ]
    );
    assert_eq!(
        pass(3, Some(1)),
        vec![ChainStep::Request(0), ChainStep::Request(1), ChainStep::Response(2), ChainStep::Response(1), ChainStep::Response(0), ChainStep::Done]
    );
}
