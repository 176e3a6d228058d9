//! What the store holds, what each step of its operations does to that, and
//! what follows for the history that is kept.

use vstd::prelude::*;
use vstd::string::*;
use vstd::utf8::*;

use crate::encode;
use crate::events::{TransactionDetail, TransactionSummary, TxState};
use crate::headers;
use crate::intercept;
use crate::intercept::TxData;
use crate::proxy;
use crate::store;
use crate::store::{
    BodyKind, ClearStep, CompletedTx, InsertPlan, Place, StoreRequest, TransactionRow,
};
use crate::tee;
use crate::tee::CapturedBody;
use crate::text;

verus! {

/// What the store holds: rows by identifier, inline bodies, and blobs by
/// name.
pub struct History {
    pub rows: Map<u64, TransactionRow>,
    pub bodies: Map<(u64, BodyKind), Seq<u8>>,
    pub blobs: Map<Seq<char>, Seq<u8>>,
}

/// A body was put in its place.
pub open spec fn with_body(
    h: History,
    id: u64,
    kind: BodyKind,
    place: Place,
    data: Seq<u8>,
) -> History {
    match place {
        Place::Nowhere => h,
        Place::Inline => History { bodies: h.bodies.insert((id, kind), data), ..h },
        Place::File(name) => History { blobs: h.blobs.insert(name, data), ..h },
    }
}

/// A plan was carried out: the bodies were put in their places, and the row
/// was inserted or replaced.
pub open spec fn inserted(h: History, plan: InsertPlan) -> History {
    let id = plan.row.summary.id;
    let h1 = with_body(h, id, BodyKind::Req, plan.req_place@, plan.req_body@);
    let h2 = with_body(h1, id, BodyKind::Resp, plan.resp_place@, plan.resp_body@);
    History { rows: h2.rows.insert(id, plan.row), ..h2 }
}

/// The body at a place; what is not there is empty.
pub open spec fn body_at(h: History, id: u64, kind: BodyKind, place: Place) -> Seq<u8> {
    match place {
        Place::Nowhere => Seq::empty(),
        Place::Inline => if h.bodies.contains_key((id, kind)) {
            h.bodies[(id, kind)]
        } else {
            Seq::empty()
        },
        Place::File(name) => if h.blobs.contains_key(name) {
            h.blobs[name]
        } else {
            Seq::empty()
        },
    }
}

/// The detail that is handed out for a transaction.
pub open spec fn shows(h: History, id: u64, d: Option<TransactionDetail>) -> bool {
    match d {
        Some(d) => {
            let row = h.rows[id];
            &&& h.rows.contains_key(id)
            &&& store::is_detail(
                row,
                body_at(h, id, BodyKind::Req, store::place_of_ref(row.req_body_ref@)),
                body_at(h, id, BodyKind::Resp, store::place_of_ref(row.resp_body_ref@)),
                d,
            )
        },
        None => !h.rows.contains_key(id),
    }
}

/// The name of a blob is the identifier, a dot, and the kind of the body.
proof fn lemma_blob_name_cut(id: u64, kind: BodyKind)
    ensures
        text::cut(store::blob_name(id, kind), "."@) == Some(
            (text::decimal_of(id as nat), store::kind_name(kind)),
        ),
{
    let name = store::blob_name(id, kind);
    let numeral = text::decimal_of(id as nat);
    let n = numeral.len() as int;
    reveal_strlit(".");
    text::lemma_decimal_value(id as nat);
    assert(name.subrange(n, n + 1) =~= "."@);
    assert(text::occurs_at(name, "."@, n));
    assert forall|j: int| 0 <= j < n implies !text::occurs_at(name, "."@, j) by {
        assert('0' <= numeral[j] && numeral[j] <= '9');
        assert(name.subrange(j, j + 1)[0] == numeral[j]);
    }
    text::lemma_cut_at(name, "."@, n);
    assert(name.take(n) =~= numeral);
    assert(name.skip(n + 1) =~= store::kind_name(kind));
}

/// No two bodies share a blob.
pub proof fn law_blob_names_differ(id: u64, kind: BodyKind, id2: u64, kind2: BodyKind)
    requires
        store::blob_name(id, kind) == store::blob_name(id2, kind2),
    ensures
        id == id2,
        kind == kind2,
{
    lemma_blob_name_cut(id, kind);
    lemma_blob_name_cut(id2, kind2);
    text::lemma_decimal_value(id as nat);
    text::lemma_decimal_value(id2 as nat);
    reveal_strlit("req");
    reveal_strlit("resp");
    assert("req"@.len() != "resp"@.len());
}

/// A blob is taken for stale exactly when its transaction is below the bound.
pub proof fn law_stale_blobs(id: u64, kind: BodyKind, below: u64)
    ensures
        store::is_stale(store::blob_name(id, kind), below) <==> id < below,
{
    lemma_blob_name_cut(id, kind);
    text::lemma_decimal_value(id as nat);
}

/// What was inserted is found: the row is there, and each body is found
/// through the row's reference to it, whatever the store held before and
/// whether the body is absent, inline or spilled.
pub proof fn law_insert_reads_back(h: History, tx: CompletedTx, plan: InsertPlan)
    requires
        store::writes(tx, plan),
    ensures
        ({
            let after = inserted(h, plan);
            let id = tx.summary.id;
            &&& after.rows.contains_key(id)
            &&& after.rows[id] == plan.row
            &&& body_at(
                after,
                id,
                BodyKind::Req,
                store::place_of_ref(plan.row.req_body_ref@),
            ) == tx.req_body@
            &&& body_at(
                after,
                id,
                BodyKind::Resp,
                store::place_of_ref(plan.row.resp_body_ref@),
            ) == tx.resp_body@
        }),
{
    let id = tx.summary.id;
    store::law_body_ref_resolves(id, BodyKind::Req, tx.req_body@.len());
    store::law_body_ref_resolves(id, BodyKind::Resp, tx.resp_body@.len());
    if store::blob_name(id, BodyKind::Req) == store::blob_name(id, BodyKind::Resp) {
        law_blob_names_differ(id, BodyKind::Req, id, BodyKind::Resp);
    }
    if tx.req_body@.len() == 0 {
        assert(tx.req_body@ =~= Seq::<u8>::empty());
    }
    if tx.resp_body@.len() == 0 {
        assert(tx.resp_body@ =~= Seq::<u8>::empty());
    }
}

/// The detail of a transaction shows what was inserted: the summary, both
/// bodies and their accounts, and the connection. Its state says whether there
/// was an error, whatever it was when it was inserted.
pub proof fn law_detail_shows_what_was_inserted(
    h: History,
    tx: CompletedTx,
    plan: InsertPlan,
    d: Option<TransactionDetail>,
)
    requires
        store::writes(tx, plan),
        shows(inserted(h, plan), tx.summary.id, d),
    ensures
        d is Some,
        d->0.summary == (TransactionSummary {
            state: if tx.summary.error is Some {
                TxState::Failed
            } else {
                TxState::Completed
            },
            ..tx.summary
        }),
        d->0.http_version == tx.http_version,
        d->0.client_addr == tx.client_addr,
        d->0.tls_version == tx.tls_version,
        d->0.alpn == tx.alpn,
        headers::are_fields_of(
            tx.req_header_blob@,
            headers::field_texts(d->0.req_headers@),
        ),
        headers::are_fields_of(
            tx.resp_header_blob@,
            headers::field_texts(d->0.resp_headers@),
        ),
        d->0.req_body_base64@ == encode::base64_text(tx.req_body@),
        d->0.req_body_truncated == tx.req_body_truncated,
        d->0.req_body_total == tx.req_body_total,
        d->0.resp_body_base64@ == encode::base64_text(tx.resp_body@),
        d->0.resp_body_truncated == tx.resp_body_truncated,
        d->0.resp_body_total == tx.resp_body_total,
        d->0.tags@ == store::tags_text(encode::json_reprinted(tx.tags@)),
{
    law_insert_reads_back(h, tx, plan);
}

/// Header fields as a map holds them, with values that are UTF-8.
pub open spec fn text_entries(entries: Seq<(Seq<char>, Seq<u8>)>) -> bool {
    &&& headers::valid_entries(entries)
    &&& forall|i: int| 0 <= i < entries.len() ==> valid_utf8((#[trigger] entries[i]).1)
}

/// Header fields as text.
pub open spec fn decoded_entries(entries: Seq<(Seq<char>, Seq<u8>)>) -> Seq<
    (Seq<char>, Seq<char>),
> {
    entries.map_values(|e: (Seq<char>, Seq<u8>)| (e.0, decode_utf8(e.1)))
}

/// The headers that a detail shows are those that were serialized, in the
/// same order and with duplicates kept, whenever their values are UTF-8.
pub proof fn law_stored_headers_read_back(
    entries: Seq<(Seq<char>, Seq<u8>)>,
    fields: Seq<(Seq<char>, Seq<char>)>,
)
    requires
        text_entries(entries),
        headers::are_fields_of(headers::header_blob(entries), fields),
    ensures
        fields == decoded_entries(entries),
{
    headers::law_header_blob_reads_back(entries);
}

/// A capture of a body of which `stream` flowed through.
pub open spec fn is_capture(cap: CapturedBody, stream: Seq<u8>, limit: nat) -> bool {
    &&& cap.bytes@ == tee::prefix(stream, limit)
    &&& cap.total == stream.len()
    &&& cap.truncated == (stream.len() > limit)
}

/// From the wire to the inspector: of an exchange that was captured, finished
/// and stored, the detail shows what was recorded of it, both bodies up to
/// the cap with their whole lengths, and the headers of both sides.
pub proof fn law_inspector_shows_the_exchange(
    h: History,
    d: TxData,
    duration_ms: Option<u64>,
    req_size: u64,
    resp_size: u64,
    req_cap: CapturedBody,
    resp_cap: CapturedBody,
    req_stream: Seq<u8>,
    resp_stream: Seq<u8>,
    limit: nat,
    req_entries: Seq<(Seq<char>, Seq<u8>)>,
    resp_entries: Seq<(Seq<char>, Seq<u8>)>,
    tx: CompletedTx,
    plan: InsertPlan,
    shown: Option<TransactionDetail>,
)
    requires
        is_capture(req_cap, req_stream, limit),
        is_capture(resp_cap, resp_stream, limit),
        d.req_header_blob@ == headers::header_blob(req_entries),
        d.resp_header_blob@ == headers::header_blob(resp_entries),
        text_entries(req_entries),
        text_entries(resp_entries),
        proxy::is_finished(d, duration_ms, req_size, resp_size, req_cap, resp_cap, tx),
        store::writes(tx, plan),
        shows(inserted(h, plan), d.id, shown),
    ensures
        shown is Some,
        shown->0.summary == intercept::summary_of(
            d,
            proxy::end_state(d),
            duration_ms,
            req_size,
            resp_size,
        ),
        shown->0.http_version == d.http_version,
        shown->0.client_addr == d.client_addr,
        shown->0.tls_version == d.tls_version,
        shown->0.alpn == d.alpn,
        headers::field_texts(shown->0.req_headers@) == decoded_entries(req_entries),
        headers::field_texts(shown->0.resp_headers@) == decoded_entries(resp_entries),
        shown->0.req_body_base64@ == encode::base64_text(tee::prefix(req_stream, limit)),
        shown->0.req_body_total == req_stream.len(),
        shown->0.req_body_truncated == (req_stream.len() > limit),
        shown->0.resp_body_base64@ == encode::base64_text(tee::prefix(resp_stream, limit)),
        shown->0.resp_body_total == resp_stream.len(),
        shown->0.resp_body_truncated == (resp_stream.len() > limit),
{
    law_detail_shows_what_was_inserted(h, tx, plan, shown);
    law_stored_headers_read_back(req_entries, headers::field_texts(shown->0.req_headers@));
    law_stored_headers_read_back(resp_entries, headers::field_texts(shown->0.resp_headers@));
}

/// An insert leaves every other transaction as it was, row and bodies.
pub proof fn law_insert_keeps_others(
    h: History,
    tx: CompletedTx,
    plan: InsertPlan,
    id: u64,
    kind: BodyKind,
    len: nat,
)
    requires
        store::writes(tx, plan),
        id != tx.summary.id,
    ensures
        inserted(h, plan).rows.contains_key(id) == h.rows.contains_key(id),
        inserted(h, plan).rows[id] == h.rows[id],
        body_at(inserted(h, plan), id, kind, store::place_for(id, kind, len)) == body_at(
            h,
            id,
            kind,
            store::place_for(id, kind, len),
        ),
{
    let other = tx.summary.id;
    if store::blob_name(id, kind) == store::blob_name(other, BodyKind::Req) {
        law_blob_names_differ(id, kind, other, BodyKind::Req);
    }
    if store::blob_name(id, kind) == store::blob_name(other, BodyKind::Resp) {
        law_blob_names_differ(id, kind, other, BodyKind::Resp);
    }
}

/// A step of clearing the session was taken.
pub open spec fn clear_effect(h: History, step: ClearStep) -> History {
    match step {
        ClearStep::DeleteRows => History { rows: Map::empty(), ..h },
        ClearStep::DeleteBodies => History { bodies: Map::empty(), ..h },
        ClearStep::RemoveBlobs => History { blobs: Map::empty(), ..h },
        ClearStep::Done => h,
    }
}

/// How many steps of clearing remain.
pub open spec fn clear_remaining(step: ClearStep) -> nat {
    match step {
        ClearStep::DeleteRows => 3,
        ClearStep::DeleteBodies => 2,
        ClearStep::RemoveBlobs => 1,
        ClearStep::Done => 0,
    }
}

/// The steps of clearing were taken, from `step` on.
pub open spec fn clear_run(h: History, step: ClearStep) -> History
    decreases clear_remaining(step),
{
    match step {
        ClearStep::Done => h,
        _ => clear_run(clear_effect(h, step), store::clear_after(step)),
    }
}

/// Clearing the session leaves no row, no body and no blob.
pub proof fn law_clear_leaves_nothing(h: History)
    ensures
        ({
            let after = clear_run(h, ClearStep::DeleteRows);
            &&& after.rows == Map::<u64, TransactionRow>::empty()
            &&& after.bodies == Map::<(u64, BodyKind), Seq<u8>>::empty()
            &&& after.blobs == Map::<Seq<char>, Seq<u8>>::empty()
        }),
{
    reveal_with_fuel(clear_run, 4);
}

/// Every request of a round is served: the inserts and the other requests
/// together are the requests that were pending.
pub proof fn law_every_request_is_served<R>(pending: Seq<(StoreRequest, R)>)
    ensures
        (store::inserts_in(pending).map_values(
            |e: (CompletedTx, R)| (StoreRequest::Insert(e.0), e.1),
        ) + store::others_in(pending)).to_multiset() == pending.to_multiset(),
    decreases pending.len(),
{
    broadcast use vstd::seq_lib::group_to_multiset_ensures;

    let as_request = |e: (CompletedTx, R)| (StoreRequest::Insert(e.0), e.1);
    let inserts = store::inserts_in(pending).map_values(as_request);
    let others = store::others_in(pending);
    if pending.len() == 0 {
        assert(inserts + others =~= pending);
    } else {
        let rest = pending.drop_last();
        let last = pending.last();
        law_every_request_is_served(rest);
        let inserts0 = store::inserts_in(rest).map_values(as_request);
        let others0 = store::others_in(rest);
        assert(pending =~= rest.push(last));
        vstd::seq_lib::lemma_multiset_commutative(inserts0, others0);
        vstd::seq_lib::lemma_multiset_commutative(inserts, others);
        match last {
            (StoreRequest::Insert(tx), reply) => {
                assert(inserts =~= inserts0.push(last));
            },
            _ => {
                assert(others =~= others0.push(last));
            },
        }
        assert((inserts + others).to_multiset() =~= pending.to_multiset());
    }
}

} // verus!
