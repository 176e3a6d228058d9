//! The rounds in which the store serves its requests, and what a read sees of
//! the inserts before it.

use vstd::prelude::*;

use crate::events::TransactionDetail;
use crate::history;
use crate::history::History;
use crate::retention;
use crate::store;
use crate::store::{BodyKind, ClearStep, CompletedTx, InsertPlan, StoreRequest};

verus! {

/// Something that is done to the store.
pub enum Deed {
    /// A transaction was inserted.
    Inserted(InsertPlan),
    /// A blob was written for a transaction whose insert then failed.
    Spilled { id: u64, kind: BodyKind, data: Seq<u8> },
    /// The transactions below an identifier were pruned.
    Pruned(u64),
    /// The session was cleared.
    Cleared,
}

/// What a deed makes of the store.
pub open spec fn after_deed(h: History, deed: Deed) -> History {
    match deed {
        Deed::Inserted(plan) => history::inserted(h, plan),
        Deed::Spilled { id, kind, data } => History {
            blobs: h.blobs.insert(store::blob_name(id, kind), data),
            ..h
        },
        Deed::Pruned(low) => retention::kept_from(h, low),
        Deed::Cleared => history::clear_run(h, ClearStep::DeleteRows),
    }
}

/// What deeds make of the store, one after another.
pub open spec fn after_deeds(h: History, deeds: Seq<Deed>) -> History
    decreases deeds.len(),
{
    if deeds.len() == 0 {
        h
    } else {
        after_deed(after_deeds(h, deeds.drop_last()), deeds.last())
    }
}

/// One round: a batch is written or fails as a whole, with one answer to all
/// of its inserts; then the store may be pruned; then the other requests are
/// served one by one. A pruning that fails changes no answer.
pub struct Round {
    pub plans: Seq<InsertPlan>,
    /// Whether the batch was written; the inserts are answered accordingly.
    pub written: bool,
    /// The blobs that a batch that failed left behind.
    pub spilled: Seq<(u64, BodyKind, Seq<u8>)>,
    /// The lowest identifier that was kept, if the store was pruned.
    pub pruned: Option<u64>,
    pub others: Seq<StoreRequest>,
}

/// What the inserts of a round do.
pub open spec fn insert_deeds(round: Round) -> Seq<Deed> {
    if round.written {
        round.plans.map_values(|plan: InsertPlan| Deed::Inserted(plan))
    } else {
        round.spilled.map_values(
            |s: (u64, BodyKind, Seq<u8>)| Deed::Spilled { id: s.0, kind: s.1, data: s.2 },
        )
    }
}

/// What serving some requests does.
pub open spec fn serving_deeds(others: Seq<StoreRequest>) -> Seq<Deed>
    decreases others.len(),
{
    if others.len() == 0 {
        Seq::empty()
    } else {
        let before = serving_deeds(others.drop_last());
        match others.last() {
            StoreRequest::Clear => before.push(Deed::Cleared),
            _ => before,
        }
    }
}

/// What is done in a round until the first `n` of its other requests are
/// served.
pub open spec fn round_deeds(round: Round, n: int) -> Seq<Deed> {
    insert_deeds(round) + (match round.pruned {
        Some(low) => seq![Deed::Pruned(low)],
        None => Seq::empty(),
    }) + serving_deeds(round.others.take(n))
}

/// What is done in some rounds.
pub open spec fn deeds_of(rounds: Seq<Round>) -> Seq<Deed>
    decreases rounds.len(),
{
    if rounds.len() == 0 {
        Seq::empty()
    } else {
        deeds_of(rounds.drop_last()) + round_deeds(
            rounds.last(),
            rounds.last().others.len() as int,
        )
    }
}

/// What is done before the request `n` of the round `k` is served.
pub open spec fn deeds_before(rounds: Seq<Round>, k: int, n: int) -> Seq<Deed> {
    deeds_of(rounds.take(k)) + round_deeds(rounds[k], n)
}

/// Where among the deeds the insert `q` of the round `i` stands.
pub open spec fn insert_at(rounds: Seq<Round>, i: int, q: int) -> int {
    deeds_of(rounds.take(i)).len() + q
}

/// Whether a deed leaves a transaction alone: it does not replace it, prune it
/// or clear it.
pub open spec fn spares(deed: Deed, id: u64) -> bool {
    match deed {
        Deed::Inserted(plan) => plan.row.summary.id != id && exists|tx: CompletedTx|
            store::writes(tx, plan),
        Deed::Spilled { id: other, .. } => other != id,
        Deed::Pruned(low) => low <= id,
        Deed::Cleared => false,
    }
}

/// Whether the store holds what was inserted.
spec fn holds_insert(h: History, tx: CompletedTx, plan: InsertPlan) -> bool {
    let id = tx.summary.id;
    &&& h.rows.contains_key(id)
    &&& h.rows[id] == plan.row
    &&& history::body_at(h, id, BodyKind::Req, store::place_of_ref(plan.row.req_body_ref@))
        == tx.req_body@
    &&& history::body_at(h, id, BodyKind::Resp, store::place_of_ref(plan.row.resp_body_ref@))
        == tx.resp_body@
}

/// A deed that leaves a transaction alone leaves what was inserted of it.
proof fn lemma_deed_spares(h: History, deed: Deed, tx: CompletedTx, plan: InsertPlan)
    requires
        store::writes(tx, plan),
        holds_insert(h, tx, plan),
        spares(deed, tx.summary.id),
    ensures
        holds_insert(after_deed(h, deed), tx, plan),
{
    let id = tx.summary.id;
    let req = tx.req_body@.len();
    let resp = tx.resp_body@.len();
    store::law_body_ref_resolves(id, BodyKind::Req, req);
    store::law_body_ref_resolves(id, BodyKind::Resp, resp);
    match deed {
        Deed::Inserted(other) => {
            let tx2 = choose|tx2: CompletedTx| store::writes(tx2, other);
            history::law_insert_keeps_others(h, tx2, other, id, BodyKind::Req, req);
            history::law_insert_keeps_others(h, tx2, other, id, BodyKind::Resp, resp);
        },
        Deed::Spilled { id: other, kind, data } => {
            if store::blob_name(other, kind) == store::blob_name(id, BodyKind::Req) {
                history::law_blob_names_differ(other, kind, id, BodyKind::Req);
            }
            if store::blob_name(other, kind) == store::blob_name(id, BodyKind::Resp) {
                history::law_blob_names_differ(other, kind, id, BodyKind::Resp);
            }
        },
        Deed::Pruned(low) => {
            history::law_stale_blobs(id, BodyKind::Req, low);
            history::law_stale_blobs(id, BodyKind::Resp, low);
        },
        Deed::Cleared => {},
    }
}

/// What was inserted stays while every later deed leaves it alone.
proof fn lemma_deeds_spare(h: History, deeds: Seq<Deed>, at: int, tx: CompletedTx, plan: InsertPlan)
    requires
        store::writes(tx, plan),
        0 <= at < deeds.len(),
        deeds[at] == Deed::Inserted(plan),
        forall|m: int| at < m < deeds.len() ==> spares(#[trigger] deeds[m], tx.summary.id),
    ensures
        holds_insert(after_deeds(h, deeds), tx, plan),
    decreases deeds.len(),
{
    let fewer = deeds.drop_last();
    let n = deeds.len() - 1;
    assert(deeds[n] == deeds.last());
    if at == n {
        history::law_insert_reads_back(after_deeds(h, fewer), tx, plan);
    } else {
        assert(fewer[at] == deeds[at]);
        assert forall|m: int| at < m < fewer.len() implies spares(
            #[trigger] fewer[m],
            tx.summary.id,
        ) by {
            assert(fewer[m] == deeds[m]);
        }
        lemma_deeds_spare(h, fewer, at, tx, plan);
        lemma_deed_spares(after_deeds(h, fewer), deeds.last(), tx, plan);
    }
}

/// The deeds of earlier rounds stay where they are.
proof fn lemma_deeds_prefix(rounds: Seq<Round>, i: int, k: int)
    requires
        0 <= i <= k <= rounds.len(),
    ensures
        deeds_of(rounds.take(i)).len() <= deeds_of(rounds.take(k)).len(),
        forall|m: int|
            0 <= m < deeds_of(rounds.take(i)).len() ==> #[trigger] deeds_of(rounds.take(k))[m]
                == deeds_of(rounds.take(i))[m],
    decreases k,
{
    if i < k {
        lemma_deeds_prefix(rounds, i, k - 1);
        assert(rounds.take(k).drop_last() =~= rounds.take(k - 1));
    }
}

/// A read sees every insert that was answered before it: a request of the same
/// or of a later round finds the row of an insert that was written, and a
/// detail shows it with its bodies, unless the transaction was cleared, pruned
/// or replaced in between.
pub proof fn law_read_sees_answered_insert(
    h: History,
    rounds: Seq<Round>,
    i: int,
    q: int,
    k: int,
    n: int,
    tx: CompletedTx,
    d: Option<TransactionDetail>,
)
    requires
        0 <= i <= k < rounds.len(),
        0 <= n < rounds[k].others.len(),
        rounds[i].written,
        0 <= q < rounds[i].plans.len(),
        store::writes(tx, rounds[i].plans[q]),
        forall|m: int|
            insert_at(rounds, i, q) < m < deeds_before(rounds, k, n).len() ==> spares(
                #[trigger] deeds_before(rounds, k, n)[m],
                tx.summary.id,
            ),
        history::shows(after_deeds(h, deeds_before(rounds, k, n)), tx.summary.id, d),
    ensures
        ({
            let now = after_deeds(h, deeds_before(rounds, k, n));
            let plan = rounds[i].plans[q];
            &&& now.rows.contains_key(tx.summary.id)
            &&& now.rows[tx.summary.id] == plan.row
            &&& d is Some
            &&& store::is_detail(plan.row, tx.req_body@, tx.resp_body@, d->0)
        }),
{
    let deeds = deeds_before(rounds, k, n);
    let at = insert_at(rounds, i, q);
    let plan = rounds[i].plans[q];
    let inserts = insert_deeds(rounds[i]);
    assert(inserts[q] == Deed::Inserted(plan));
    if i < k {
        lemma_deeds_prefix(rounds, i + 1, k);
        assert(rounds.take(i + 1).drop_last() =~= rounds.take(i));
        assert(deeds_of(rounds.take(i + 1))[at] == Deed::Inserted(plan));
        assert(deeds_of(rounds.take(k))[at] == Deed::Inserted(plan));
    }
    assert(deeds[at] == Deed::Inserted(plan));
    lemma_deeds_spare(h, deeds, at, tx, plan);
}

/// A round as those see it who asked: what was asked, with whom to answer, and
/// what came of it.
pub struct Served<R> {
    pub pending: Seq<(StoreRequest, R)>,
    /// What came of writing the batch of inserts.
    pub batch: Result<(), String>,
    /// What came of pruning, if it was time for that.
    pub pruning: Option<Result<u64, String>>,
    /// What came of the other requests, one by one.
    pub outcomes: Seq<Result<(), String>>,
}

/// The answers of a round, each with whom it goes to.
pub open spec fn answers<R>(s: Served<R>) -> Seq<(R, Result<(), String>)> {
    store::inserts_in(s.pending).map_values(|e: (CompletedTx, R)| (e.1, s.batch)) + Seq::new(
        store::others_in(s.pending).len(),
        |i: int| (store::others_in(s.pending)[i].1, s.outcomes[i]),
    )
}

/// Those who asked something are those who asked for an insert and those who
/// asked something else.
proof fn lemma_askers<R>(pending: Seq<(StoreRequest, R)>)
    ensures
        (store::inserts_in(pending).map_values(|e: (CompletedTx, R)| e.1) + store::others_in(
            pending,
        ).map_values(|e: (StoreRequest, R)| e.1)).to_multiset() == pending.map_values(
            |e: (StoreRequest, R)| e.1,
        ).to_multiset(),
    decreases pending.len(),
{
    broadcast use vstd::seq_lib::group_to_multiset_ensures;

    let who = |e: (StoreRequest, R)| e.1;
    let inserter = |e: (CompletedTx, R)| e.1;
    let inserts = store::inserts_in(pending).map_values(inserter);
    let others = store::others_in(pending).map_values(who);
    let all = pending.map_values(who);
    if pending.len() == 0 {
        assert(inserts + others =~= all);
    } else {
        let rest = pending.drop_last();
        let last = pending.last();
        lemma_askers(rest);
        let inserts0 = store::inserts_in(rest).map_values(inserter);
        let others0 = store::others_in(rest).map_values(who);
        assert(all =~= rest.map_values(who).push(last.1));
        vstd::seq_lib::lemma_multiset_commutative(inserts0, others0);
        vstd::seq_lib::lemma_multiset_commutative(inserts, others);
        match last {
            (StoreRequest::Insert(tx), reply) => {
                assert(inserts =~= inserts0.push(last.1));
            },
            _ => {
                assert(others =~= others0.push(last.1));
            },
        }
        assert((inserts + others).to_multiset() =~= all.to_multiset());
    }
}

/// Everyone who asked something in a round gets exactly one answer.
pub proof fn law_every_request_gets_one_answer<R>(s: Served<R>)
    requires
        s.outcomes.len() == store::others_in(s.pending).len(),
    ensures
        answers(s).map_values(|a: (R, Result<(), String>)| a.0).to_multiset()
            == s.pending.map_values(|e: (StoreRequest, R)| e.1).to_multiset(),
{
    lemma_askers(s.pending);
    assert(answers(s).map_values(|a: (R, Result<(), String>)| a.0) =~= store::inserts_in(
        s.pending,
    ).map_values(|e: (CompletedTx, R)| e.1) + store::others_in(s.pending).map_values(
        |e: (StoreRequest, R)| e.1,
    ));
}

/// All inserts of a batch are answered alike: with success where the batch was
/// written, and with its error where it was not. What comes of pruning changes
/// no answer.
pub proof fn law_answers_are_what_came_of_it<R>(
    s: Served<R>,
    pruning: Option<Result<u64, String>>,
    q: int,
)
    requires
        0 <= q < store::inserts_in(s.pending).len(),
    ensures
        answers(s)[q] == (store::inserts_in(s.pending)[q].1, s.batch),
        s.batch is Err ==> answers(s)[q].1 is Err,
        answers(Served { pruning, ..s }) == answers(s),
{
    let inserts = store::inserts_in(s.pending);
    assert(answers(s)[q] == inserts.map_values(|e: (CompletedTx, R)| (e.1, s.batch))[q]);
    assert(answers(Served { pruning, ..s }) =~= answers(s));
}

/// A round is what those who asked see of it.
pub open spec fn is_round<R>(s: Served<R>, round: Round) -> bool {
    &&& round.written == (s.batch is Ok)
    &&& round.plans.len() == store::inserts_in(s.pending).len()
    &&& forall|q: int|
        0 <= q < round.plans.len() ==> store::writes(
            store::inserts_in(s.pending)[q].0,
            #[trigger] round.plans[q],
        )
    &&& round.others == store::others_in(s.pending).map_values(|e: (StoreRequest, R)| e.0)
    &&& round.pruned == match s.pruning {
        Some(Ok(low)) => Some(low),
        _ => None,
    }
}

/// Whoever was told that an insert succeeded will see it: the detail that a
/// request of the same or of a later round is answered shows what was
/// inserted, unless that was cleared, pruned or replaced in between.
pub proof fn law_told_insert_is_seen<R>(
    h: History,
    s: Served<R>,
    rounds: Seq<Round>,
    i: int,
    q: int,
    k: int,
    n: int,
    d: Option<TransactionDetail>,
)
    requires
        0 <= i <= k < rounds.len(),
        is_round(s, rounds[i]),
        0 <= q < store::inserts_in(s.pending).len(),
        answers(s)[q].1 is Ok,
        0 <= n < rounds[k].others.len(),
        forall|m: int|
            insert_at(rounds, i, q) < m < deeds_before(rounds, k, n).len() ==> spares(
                #[trigger] deeds_before(rounds, k, n)[m],
                store::inserts_in(s.pending)[q].0.summary.id,
            ),
        history::shows(
            after_deeds(h, deeds_before(rounds, k, n)),
            store::inserts_in(s.pending)[q].0.summary.id,
            d,
        ),
    ensures
        ({
            let tx = store::inserts_in(s.pending)[q].0;
            &&& d is Some
            &&& store::is_detail(rounds[i].plans[q].row, tx.req_body@, tx.resp_body@, d->0)
        }),
{
    let tx = store::inserts_in(s.pending)[q].0;
    law_answers_are_what_came_of_it(s, s.pruning, q);
    assert(store::writes(tx, rounds[i].plans[q]));
    law_read_sees_answered_insert(h, rounds, i, q, k, n, tx, d);
}

} // verus!
