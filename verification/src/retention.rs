//! The retention caps: how many transactions a session keeps, and how many
//! bytes they take.

use vstd::prelude::*;
use vstd::set::fold::*;

use crate::history;
use crate::history::History;
use crate::store;
use crate::store::{BodyKind, PruneFound, PruneStep, StoredPart};

verus! {

/// The sum of a size over keys.
pub open spec fn total<K>(keys: Set<K>, size: spec_fn(K) -> nat) -> nat {
    keys.fold(0nat, |sum: nat, key: K| sum + size(key))
}

/// A new key adds its size.
proof fn lemma_total_insert<K>(keys: Set<K>, size: spec_fn(K) -> nat, key: K)
    requires
        keys.finite(),
        !keys.contains(key),
    ensures
        total(keys.insert(key), size) == total(keys, size) + size(key),
{
    let f = |sum: nat, k: K| sum + size(k);
    assert(is_fun_commutative(f));
    lemma_fold_insert(keys, 0nat, f, key);
}

/// Where sizes agree, so do their sums.
proof fn lemma_total_same<K>(keys: Set<K>, a: spec_fn(K) -> nat, b: spec_fn(K) -> nat)
    requires
        keys.finite(),
        forall|key: K| keys.contains(key) ==> #[trigger] a(key) == b(key),
    ensures
        total(keys, a) == total(keys, b),
    decreases keys.len(),
{
    if keys.len() == 0 {
        assert(keys =~= Set::<K>::empty());
        lemma_fold_empty(0nat, |sum: nat, k: K| sum + a(k));
        lemma_fold_empty(0nat, |sum: nat, k: K| sum + b(k));
    } else {
        let key = keys.choose();
        let rest = keys.remove(key);
        lemma_total_same(rest, a, b);
        lemma_total_insert(rest, a, key);
        lemma_total_insert(rest, b, key);
        assert(rest.insert(key) =~= keys);
        assert(a(key) == b(key));
    }
}

/// The blobs that belong to a transaction, by name.
pub open spec fn owned_blobs(h: History) -> Set<Seq<char>> {
    h.blobs.dom().filter(|name: Seq<char>| store::owner_of(name) is Some)
}

/// What the rows, inline bodies and blobs of a session take. Files of the blob
/// directory that belong to no transaction are not the store's.
pub open spec fn stored_bytes(h: History) -> nat {
    total(h.rows.dom(), |id: u64| store::row_bytes(h.rows[id])) + total(
        h.bodies.dom(),
        |key: (u64, BodyKind)| h.bodies[key].len(),
    ) + total(owned_blobs(h), |name: Seq<char>| h.blobs[name].len())
}

/// Whether a session keeps within the caps.
pub open spec fn within_caps(h: History) -> bool {
    &&& h.rows.dom().len() <= store::MAX_TRANSACTIONS
    &&& stored_bytes(h) <= store::MAX_STORED_BYTES
}

/// What is left of a session from an identifier on.
pub open spec fn kept_from(h: History, low: u64) -> History {
    History {
        rows: h.rows.restrict(h.rows.dom().filter(|id: u64| id >= low)),
        bodies: h.bodies.restrict(h.bodies.dom().filter(|key: (u64, BodyKind)| key.0 >= low)),
        blobs: h.blobs.restrict(
            h.blobs.dom().filter(|name: Seq<char>| !store::is_stale(name, low)),
        ),
    }
}

/// A list of parts tells what a session stores: how many rows, and how many
/// bytes, from each identifier on.
pub open spec fn is_measured(h: History, parts: Seq<StoredPart>) -> bool {
    forall|low: u64|
        #![trigger kept_from(h, low)]
        store::rows_stored(parts, low) == kept_from(h, low).rows.dom().len()
            && store::bytes_stored(parts, low) == stored_bytes(kept_from(h, low))
}

/// A step of a pruning was taken.
pub open spec fn prune_effect(h: History, step: PruneStep) -> History {
    match step {
        PruneStep::DeleteRows { below } => History { rows: kept_from(h, below).rows, ..h },
        PruneStep::DeleteBodies { below } => History { bodies: kept_from(h, below).bodies, ..h },
        PruneStep::RemoveBlobs { below } => History { blobs: kept_from(h, below).blobs, ..h },
        _ => h,
    }
}

/// What a step of a pruning tells, where `stored` is what is stored.
pub open spec fn prune_told(step: PruneStep, stored: Vec<StoredPart>) -> PruneFound {
    match step {
        PruneStep::Measure { .. } => PruneFound::Stored(stored),
        _ => PruneFound::Nothing,
    }
}

/// How many steps of a pruning can remain.
pub open spec fn prune_remaining(step: PruneStep) -> nat {
    match step {
        PruneStep::Measure { .. } => 4,
        PruneStep::DeleteRows { .. } => 3,
        PruneStep::DeleteBodies { .. } => 2,
        PruneStep::RemoveBlobs { .. } => 1,
        PruneStep::Done => 0,
    }
}

/// The steps of a pruning were taken, from `step` on.
pub open spec fn prune_run(h: History, step: PruneStep, stored: Vec<StoredPart>) -> History
    decreases prune_remaining(step),
{
    match step {
        PruneStep::Done => h,
        _ => prune_run(
            prune_effect(h, step),
            store::prune_after(step, prune_told(step, stored)),
            stored,
        ),
    }
}

/// The lowest identifier from which on what is stored keeps within the caps.
pub open spec fn cap_bound(stored: Seq<StoredPart>) -> u64 {
    store::oldest_kept(stored, store::MAX_TRANSACTIONS, store::MAX_STORED_BYTES)
}

/// What a pruning deletes lies below this identifier.
pub open spec fn prune_bound(stored: Seq<StoredPart>) -> u64 {
    if cap_bound(stored) > 0 {
        store::deleted_below(stored, cap_bound(stored))
    } else {
        0
    }
}

/// From the lowest identifier on, everything is left.
proof fn lemma_kept_from_zero(h: History)
    ensures
        kept_from(h, 0) == h,
{
    assert(kept_from(h, 0).rows =~= h.rows);
    assert(kept_from(h, 0).bodies =~= h.bodies);
    assert(kept_from(h, 0).blobs =~= h.blobs);
}

/// A pruning leaves what there is from its bound on.
proof fn lemma_prune_run(h: History, stored: Vec<StoredPart>)
    ensures
        prune_run(h, store::prune_start(), stored) == kept_from(h, prune_bound(stored@)),
{
    reveal_with_fuel(prune_run, 5);
    let low = prune_bound(stored@);
    lemma_kept_from_zero(h);
    if cap_bound(stored@) > 0 {
        let h1 = prune_effect(h, PruneStep::DeleteRows { below: low });
        let h2 = prune_effect(h1, PruneStep::DeleteBodies { below: low });
        assert(prune_effect(h2, PruneStep::RemoveBlobs { below: low }) == kept_from(h, low));
    }
}

/// Nothing is stored from the highest identifier on.
proof fn lemma_nothing_above(parts: Seq<StoredPart>)
    requires
        forall|i: int| 0 <= i < parts.len() ==> (#[trigger] parts[i]).id < u64::MAX,
    ensures
        store::rows_stored(parts, u64::MAX) == 0,
        store::bytes_stored(parts, u64::MAX) == 0,
    decreases parts.len(),
{
    if parts.len() > 0 {
        let n = parts.len() - 1;
        assert(parts[n] == parts.last());
        assert forall|i: int| 0 <= i < n implies (#[trigger] parts.drop_last()[i]).id
            < u64::MAX by {
            assert(parts[i].id < u64::MAX);
        }
        lemma_nothing_above(parts.drop_last());
    }
}

/// A list of parts names the rows of a session.
pub open spec fn lists_rows(h: History, parts: Seq<StoredPart>) -> bool {
    &&& forall|i: int|
        0 <= i < parts.len() && (#[trigger] parts[i]).row ==> h.rows.contains_key(parts[i].id)
    &&& forall|id: u64| #[trigger]
        h.rows.contains_key(id) ==> exists|i: int|
            0 <= i < parts.len() && (#[trigger] parts[i]).row && parts[i].id == id
}

/// The lowest row is one of those that are listed, and none of them is lower.
proof fn lemma_lowest_row(parts: Seq<StoredPart>, low: u64)
    ensures
        match store::lowest_row(parts, low) {
            Some(id) => {
                &&& id >= low
                &&& exists|i: int|
                    0 <= i < parts.len() && (#[trigger] parts[i]).row && parts[i].id == id
                &&& forall|i: int|
                    0 <= i < parts.len() && (#[trigger] parts[i]).row && parts[i].id >= low
                        ==> parts[i].id >= id
            },
            None => forall|i: int|
                0 <= i < parts.len() && (#[trigger] parts[i]).row ==> parts[i].id < low,
        },
    decreases parts.len(),
{
    if parts.len() > 0 {
        let rest = parts.drop_last();
        let n = parts.len() - 1;
        lemma_lowest_row(rest, low);
        assert(parts[n] == parts.last());
        assert(forall|i: int| 0 <= i < n ==> rest[i] == #[trigger] parts[i]);
        if let Some(id) = store::lowest_row(rest, low) {
            let i = choose|i: int|
                0 <= i < rest.len() && (#[trigger] rest[i]).row && rest[i].id == id;
            assert(parts[i].row && parts[i].id == id);
        }
    }
}

/// The higher the bound, the less is stored above it.
proof fn lemma_within_above(h: History, stored: Seq<StoredPart>, low: u64, higher: u64)
    requires
        is_measured(h, stored),
        low <= higher,
        within_caps(kept_from(h, low)),
    ensures
        within_caps(kept_from(h, higher)),
{
    store::lemma_fewer_stored(stored, low, higher);
}

/// After a pruning the session keeps within both caps, on transactions and on
/// bytes. The oldest transactions go first, whole, and no more of them than
/// has to: to keep a transaction that was dropped, with what is newer, would
/// exceed a cap. A session within the caps is left as it is. Identifiers are
/// below the highest that there is: the database keeps them as signed numbers.
pub proof fn law_prune_keeps_within_caps(h: History, stored: Vec<StoredPart>)
    requires
        is_measured(h, stored@),
        lists_rows(h, stored@),
        forall|i: int| 0 <= i < stored@.len() ==> (#[trigger] stored@[i]).id < u64::MAX,
    ensures
        ({
            let after = prune_run(h, store::prune_start(), stored);
            let below = prune_bound(stored@);
            &&& within_caps(after)
            &&& after == kept_from(h, below)
            &&& forall|id: u64| #[trigger]
                h.rows.contains_key(id) && id < below ==> !within_caps(kept_from(h, id))
            &&& within_caps(h) ==> after == h
        }),
{
    let rows = store::MAX_TRANSACTIONS;
    let bytes = store::MAX_STORED_BYTES;
    let low = cap_bound(stored@);
    let below = prune_bound(stored@);
    lemma_prune_run(h, stored);
    lemma_nothing_above(stored@);
    lemma_kept_from_zero(h);
    lemma_bound_exists(stored@, rows, bytes);
    lemma_lowest_row(stored@, low);
    assert forall|any: u64| #[trigger] within_caps(kept_from(h, any)) <==> store::fits(
        stored@,
        any,
        rows,
        bytes,
    ) by {}
    assert(store::is_oldest_kept(stored@, rows, bytes, low));
    assert(within_caps(kept_from(h, low)));
    if low > 0 {
        lemma_within_above(h, stored@, low, below);
        assert(!store::fits(stored@, 0, rows, bytes));
        assert(!within_caps(kept_from(h, 0)));
    }
    assert forall|id: u64| #[trigger]
        h.rows.contains_key(id) && id < below implies !within_caps(kept_from(h, id)) by {
        let i = choose|i: int|
            0 <= i < stored@.len() && (#[trigger] stored@[i]).row && stored@[i].id == id;
        assert(stored@[i].id < low);
        assert(!store::fits(stored@, id, rows, bytes));
    }
}

/// Where the bytes of a session keep within their cap, pruning keeps as many
/// transactions as it may, the newest ones.
pub proof fn law_prune_fills_the_cap(h: History, stored: Vec<StoredPart>)
    requires
        is_measured(h, stored@),
        lists_rows(h, stored@),
        h.rows.dom().finite(),
        stored_bytes(h) <= store::MAX_STORED_BYTES,
        forall|i: int| 0 <= i < stored@.len() ==> (#[trigger] stored@[i]).id < u64::MAX,
    ensures
        ({
            let after = prune_run(h, store::prune_start(), stored);
            let most = store::MAX_TRANSACTIONS as nat;
            after.rows.dom().len() == (if h.rows.dom().len() <= most {
                h.rows.dom().len()
            } else {
                most
            })
        }),
{
    let rows = store::MAX_TRANSACTIONS;
    let bytes = store::MAX_STORED_BYTES;
    let low = cap_bound(stored@);
    let below = prune_bound(stored@);
    law_prune_keeps_within_caps(h, stored);
    lemma_kept_from_zero(h);
    if h.rows.dom().len() <= rows {
        assert(within_caps(h));
    } else {
        lemma_bound_exists(stored@, rows, bytes);
        lemma_lowest_row(stored@, low);
        assert(kept_from(h, 0) == h);
        assert(!store::fits(stored@, 0, rows, bytes));
        lemma_nothing_above(stored@);
        assert(store::fits(stored@, low, rows, bytes));
        let less = (low - 1) as u64;
        assert(!store::fits(stored@, less, rows, bytes));
        store::lemma_fewer_stored(stored@, 0, less);
        let more = kept_from(h, less).rows.dom();
        let kept = kept_from(h, low).rows.dom();
        assert(store::rows_stored(stored@, less) == more.len());
        assert(store::rows_stored(stored@, low) == kept.len());
        assert(kept =~= h.rows.dom().filter(|id: u64| id >= low));
        assert(kept.finite());
        assert(more.subset_of(kept.insert(less)));
        vstd::set_lib::lemma_len_subset(more, kept.insert(less));
        assert(kept =~= kept_from(h, below).rows.dom()) by {
            assert forall|id: u64| h.rows.contains_key(id) && id >= low implies id >= below by {
                let i = choose|i: int|
                    0 <= i < stored@.len() && (#[trigger] stored@[i]).row && stored@[i].id == id;
                assert(stored@[i].id >= low);
            }
        }
    }
}

/// Once a transaction was pruned, nothing is left below the oldest one that is
/// kept: no row, no inline body, and no blob that belongs to a transaction,
/// whether or not that had a row.
pub proof fn law_prune_leaves_nothing_older(
    h: History,
    stored: Vec<StoredPart>,
    dropped: u64,
    oldest: u64,
)
    requires
        lists_rows(h, stored@),
        h.rows.contains_key(dropped),
        !prune_run(h, store::prune_start(), stored).rows.contains_key(dropped),
        prune_run(h, store::prune_start(), stored).rows.contains_key(oldest),
        forall|id: u64| #[trigger]
            prune_run(h, store::prune_start(), stored).rows.contains_key(id) ==> oldest <= id,
    ensures
        ({
            let after = prune_run(h, store::prune_start(), stored);
            &&& forall|key: (u64, BodyKind)| #[trigger]
                after.bodies.contains_key(key) ==> key.0 >= oldest
            &&& forall|name: Seq<char>| #[trigger]
                after.blobs.contains_key(name) ==> !store::is_stale(name, oldest)
            &&& after == kept_from(h, oldest)
        }),
{
    let low = cap_bound(stored@);
    let below = prune_bound(stored@);
    let after = prune_run(h, store::prune_start(), stored);
    lemma_prune_run(h, stored);
    lemma_lowest_row(stored@, low);
    assert(dropped < below);
    let i = choose|i: int|
        0 <= i < stored@.len() && (#[trigger] stored@[i]).row && stored@[i].id == oldest;
    assert(stored@[i].id >= low);
    let k = choose|k: int|
        0 <= k < stored@.len() && (#[trigger] stored@[k]).row && stored@[k].id == below;
    assert(h.rows.contains_key(stored@[k].id));
    assert(after.rows.contains_key(below));
}

/// There is a lowest identifier from which on the caps are kept.
proof fn lemma_bound_exists(parts: Seq<StoredPart>, rows: u64, bytes: u64)
    ensures
        store::is_oldest_kept(parts, rows, bytes, store::oldest_kept(parts, rows, bytes)),
{
    lemma_bound_below(parts, rows, bytes, u64::MAX as nat);
}

/// There is one, if it is looked for from below.
proof fn lemma_bound_below(parts: Seq<StoredPart>, rows: u64, bytes: u64, n: nat)
    requires
        n <= u64::MAX,
        forall|lower: u64|
            lower < u64::MAX - n ==> !#[trigger] store::fits(parts, lower, rows, bytes),
    ensures
        exists|low: u64| store::is_oldest_kept(parts, rows, bytes, low),
    decreases n,
{
    let low = (u64::MAX - n) as u64;
    if n == 0 || store::fits(parts, low, rows, bytes) {
        assert(store::is_oldest_kept(parts, rows, bytes, low));
    } else {
        lemma_bound_below(parts, rows, bytes, (n - 1) as nat);
    }
}

/// Pruning keeps the transactions from its bound on as they were, and drops
/// the others.
pub proof fn law_prune_keeps_newest(h: History, stored: Vec<StoredPart>, id: u64)
    ensures
        ({
            let after = prune_run(h, store::prune_start(), stored);
            let low = prune_bound(stored@);
            &&& after.rows.contains_key(id) <==> h.rows.contains_key(id) && id >= low
            &&& after.rows.contains_key(id) ==> after.rows[id] == h.rows[id]
        }),
{
    lemma_prune_run(h, stored);
}

/// Pruning leaves the bodies of the transactions that it keeps as they were,
/// and no body below its bound.
pub proof fn law_prune_drops_bodies_with_rows(
    h: History,
    stored: Vec<StoredPart>,
    id: u64,
    kind: BodyKind,
    len: nat,
)
    ensures
        ({
            let after = prune_run(h, store::prune_start(), stored);
            let place = store::place_for(id, kind, len);
            let low = prune_bound(stored@);
            &&& id >= low ==> history::body_at(after, id, kind, place) == history::body_at(
                h,
                id,
                kind,
                place,
            )
            &&& id < low ==> {
                &&& history::body_at(after, id, kind, place) == Seq::<u8>::empty()
                &&& !after.bodies.contains_key((id, kind))
                &&& !after.blobs.contains_key(store::blob_name(id, kind))
            }
        }),
{
    lemma_prune_run(h, stored);
    history::law_stale_blobs(id, kind, prune_bound(stored@));
}

/// The sum of a size over the keys in a list that belong to identifiers from
/// `low` on.
spec fn listed<K>(keys: Seq<K>, id: spec_fn(K) -> u64, size: spec_fn(K) -> nat, low: u64) -> nat
    decreases keys.len(),
{
    if keys.len() == 0 {
        0
    } else {
        listed(keys.drop_last(), id, size, low) + if id(keys.last()) >= low {
            size(keys.last())
        } else {
            0
        }
    }
}

/// It is the sum over the set of those keys.
proof fn lemma_listed<K>(keys: Seq<K>, id: spec_fn(K) -> u64, size: spec_fn(K) -> nat, low: u64)
    requires
        keys.no_duplicates(),
    ensures
        keys.to_set().finite(),
        listed(keys, id, size, low) == total(keys.to_set().filter(|key: K| id(key) >= low), size),
    decreases keys.len(),
{
    let wanted = |key: K| id(key) >= low;
    vstd::seq_lib::seq_to_set_is_finite(keys);
    if keys.len() == 0 {
        assert(keys.to_set().filter(wanted) =~= Set::<K>::empty());
        lemma_fold_empty(0nat, |sum: nat, key: K| sum + size(key));
    } else {
        let rest = keys.drop_last();
        let last = keys.last();
        lemma_listed(rest, id, size, low);
        vstd::seq_lib::seq_to_set_is_finite(rest);
        assert(keys[keys.len() - 1] == last);
        assert forall|key: K| keys.to_set().contains(key) <==> rest.to_set().contains(key) || key
            == last by {
            if keys.contains(key) {
                let i = choose|i: int| 0 <= i < keys.len() && keys[i] == key;
                if i < rest.len() {
                    assert(rest[i] == key);
                }
            }
            if rest.contains(key) {
                let i = choose|i: int| 0 <= i < rest.len() && rest[i] == key;
                assert(keys[i] == key);
            }
        }
        if rest.contains(last) {
            let i = choose|i: int| 0 <= i < rest.len() && rest[i] == last;
            assert(keys[i] == last);
        }
        let before = rest.to_set().filter(wanted);
        if wanted(last) {
            assert(keys.to_set().filter(wanted) =~= before.insert(last));
            lemma_total_insert(before, size, last);
        } else {
            assert(keys.to_set().filter(wanted) =~= before);
        }
    }
}

/// One part for each key in a list.
pub open spec fn parts_of<K>(
    keys: Seq<K>,
    id: spec_fn(K) -> u64,
    size: spec_fn(K) -> nat,
    row: bool,
) -> Seq<StoredPart> {
    keys.map_values(|key: K| StoredPart { id: id(key), row, bytes: size(key) as u64 })
}

/// What such parts take.
proof fn lemma_parts<K>(
    keys: Seq<K>,
    id: spec_fn(K) -> u64,
    size: spec_fn(K) -> nat,
    row: bool,
    low: u64,
)
    requires
        forall|i: int| 0 <= i < keys.len() ==> size(#[trigger] keys[i]) <= u64::MAX,
    ensures
        store::bytes_stored(parts_of(keys, id, size, row), low) == listed(keys, id, size, low),
        store::rows_stored(parts_of(keys, id, size, row), low) == (if row {
            listed(keys, id, |key: K| 1nat, low)
        } else {
            0
        }),
    decreases keys.len(),
{
    let parts = parts_of(keys, id, size, row);
    if keys.len() > 0 {
        let rest = keys.drop_last();
        assert forall|i: int| 0 <= i < rest.len() implies size(#[trigger] rest[i])
            <= u64::MAX by {
            assert(rest[i] == keys[i]);
        }
        lemma_parts(rest, id, size, row, low);
        assert(parts.drop_last() =~= parts_of(rest, id, size, row));
        assert(keys[keys.len() - 1] == keys.last());
        assert(parts.last() == (StoredPart {
            id: id(keys.last()),
            row,
            bytes: size(keys.last()) as u64,
        }));
    }
}

/// What two lists of parts take together.
proof fn lemma_parts_concat(a: Seq<StoredPart>, b: Seq<StoredPart>, low: u64)
    ensures
        store::bytes_stored(a + b, low) == store::bytes_stored(a, low) + store::bytes_stored(
            b,
            low,
        ),
        store::rows_stored(a + b, low) == store::rows_stored(a, low) + store::rows_stored(b, low),
    decreases b.len(),
{
    if b.len() == 0 {
        assert(a + b =~= a);
    } else {
        lemma_parts_concat(a, b.drop_last(), low);
        assert((a + b).drop_last() =~= a + b.drop_last());
    }
}

/// The size of a set is the sum of ones.
proof fn lemma_total_ones<K>(keys: Set<K>)
    requires
        keys.finite(),
    ensures
        total(keys, |key: K| 1nat) == keys.len(),
    decreases keys.len(),
{
    let one = |key: K| 1nat;
    if keys.len() == 0 {
        assert(keys =~= Set::<K>::empty());
        lemma_fold_empty(0nat, |sum: nat, k: K| sum + one(k));
    } else {
        let key = keys.choose();
        lemma_total_ones(keys.remove(key));
        lemma_total_insert(keys.remove(key), one, key);
        assert(keys.remove(key).insert(key) =~= keys);
    }
}

/// Every row, every inline body and every blob in some lists, with what it
/// takes.
pub open spec fn listing(
    h: History,
    ids: Seq<u64>,
    keys: Seq<(u64, BodyKind)>,
    names: Seq<Seq<char>>,
) -> Seq<StoredPart> {
    parts_of(ids, |id: u64| id, |id: u64| store::row_bytes(h.rows[id]), true) + parts_of(
        keys,
        |key: (u64, BodyKind)| key.0,
        |key: (u64, BodyKind)| h.bodies[key].len(),
        false,
    ) + parts_of(
        names,
        |name: Seq<char>| store::owner_of(name)->0,
        |name: Seq<char>| h.blobs[name].len(),
        false,
    )
}

/// Listing every row, every inline body and every blob of a transaction, each
/// once and with what it takes, tells what a session stores.
pub proof fn law_listing_everything_measures(
    h: History,
    ids: Seq<u64>,
    keys: Seq<(u64, BodyKind)>,
    names: Seq<Seq<char>>,
)
    requires
        ids.no_duplicates(),
        ids.to_set() == h.rows.dom(),
        keys.no_duplicates(),
        keys.to_set() == h.bodies.dom(),
        names.no_duplicates(),
        names.to_set() == owned_blobs(h),
        forall|i: int| 0 <= i < ids.len() ==> store::row_bytes(#[trigger] h.rows[ids[i]])
            <= u64::MAX,
        forall|i: int| 0 <= i < keys.len() ==> (#[trigger] h.bodies[keys[i]]).len() <= u64::MAX,
        forall|i: int| 0 <= i < names.len() ==> (#[trigger] h.blobs[names[i]]).len() <= u64::MAX,
    ensures
        is_measured(h, listing(h, ids, keys, names)),
        lists_rows(h, listing(h, ids, keys, names)),
{
    let row_id = |id: u64| id;
    let row_size = |id: u64| store::row_bytes(h.rows[id]);
    let body_id = |key: (u64, BodyKind)| key.0;
    let body_size = |key: (u64, BodyKind)| h.bodies[key].len();
    let blob_id = |name: Seq<char>| store::owner_of(name)->0;
    let blob_size = |name: Seq<char>| h.blobs[name].len();
    let a = parts_of(ids, row_id, row_size, true);
    let b = parts_of(keys, body_id, body_size, false);
    let c = parts_of(names, blob_id, blob_size, false);
    assert forall|low: u64|
        #![trigger kept_from(h, low)]
        store::rows_stored(a + b + c, low) == kept_from(h, low).rows.dom().len()
            && store::bytes_stored(a + b + c, low) == stored_bytes(kept_from(h, low)) by {
        let after = kept_from(h, low);
        lemma_parts_concat(a + b, c, low);
        lemma_parts_concat(a, b, low);
        lemma_parts(ids, row_id, row_size, true, low);
        lemma_parts(keys, body_id, body_size, false, low);
        lemma_parts(names, blob_id, blob_size, false, low);
        lemma_listed(ids, row_id, row_size, low);
        lemma_listed(ids, row_id, |id: u64| 1nat, low);
        lemma_listed(keys, body_id, body_size, low);
        lemma_listed(names, blob_id, blob_size, low);
        let kept_ids = ids.to_set().filter(|id: u64| row_id(id) >= low);
        let kept_keys = keys.to_set().filter(|key: (u64, BodyKind)| body_id(key) >= low);
        let kept_names = names.to_set().filter(|name: Seq<char>| blob_id(name) >= low);
        assert(after.rows.dom() =~= kept_ids);
        assert(after.bodies.dom() =~= kept_keys);
        assert(owned_blobs(after) =~= kept_names);
        lemma_total_ones(kept_ids);
        lemma_total_same(kept_ids, row_size, |id: u64| store::row_bytes(after.rows[id]));
        lemma_total_same(kept_keys, body_size, |key: (u64, BodyKind)| after.bodies[key].len());
        lemma_total_same(kept_names, blob_size, |name: Seq<char>| after.blobs[name].len());
    }
    let all = a + b + c;
    assert forall|i: int| 0 <= i < all.len() && (#[trigger] all[i]).row implies h.rows.contains_key(
        all[i].id,
    ) by {
        assert(i < ids.len());
        assert(all[i].id == ids[i]);
        assert(ids.to_set().contains(ids[i]));
    }
    assert forall|id: u64| #[trigger] h.rows.contains_key(id) implies exists|i: int|
        0 <= i < all.len() && (#[trigger] all[i]).row && all[i].id == id by {
        assert(ids.to_set().contains(id));
        let i = choose|i: int| 0 <= i < ids.len() && ids[i] == id;
        assert(all[i].row && all[i].id == id);
    }
}

/// A session that keeps within the caps holds at most 50000 transactions, and
/// these take at most two gigabytes.
pub proof fn law_caps_in_numbers(h: History)
    ensures
        within_caps(h) <==> h.rows.dom().len() <= 50_000 && stored_bytes(h) <= 2_000_000_000,
{
}

} // verus!
