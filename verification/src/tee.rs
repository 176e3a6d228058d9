//! Body capture: while a body streams through unmodified, up to a cap of its
//! bytes is copied for the recorder.
//!
//! The capture is handed over once, when the body finishes, fails or is
//! dropped early, so whoever waits for it always gets an answer.

use vstd::prelude::*;
use vstd::slice::*;

verus! {

/// What was captured once the body is done (or abandoned).
#[derive(Debug)]
pub struct CapturedBody {
    pub bytes: Vec<u8>,
    /// Total data bytes that flowed through, including beyond the cap.
    pub total: u64,
    /// True if the body exceeded the capture cap.
    pub truncated: bool,
    /// False if the body was dropped before reaching end-of-stream.
    pub completed: bool,
}

impl Default for CapturedBody {
    fn default() -> (r: Self)
        ensures
            r.bytes@ == Seq::<u8>::empty(),
            r.total == 0,
            !r.truncated,
            !r.completed,
    {
        CapturedBody { bytes: Vec::new(), total: 0, truncated: false, completed: false }
    }
}

/// What happens to a body that streams through.
pub enum BodyEvent<'a> {
    /// A frame with data.
    Data(&'a [u8]),
    /// A frame without data (trailers).
    Other,
    /// The stream failed.
    Failed,
    /// The stream reached its end.
    End,
    /// The stream was dropped.
    Dropped,
}

/// The capture of one body while it streams.
pub struct CaptureGuard {
    buf: Vec<u8>,
    total: u64,
    truncated: bool,
    limit: usize,
    open: bool,
}

/// How many more bytes fit.
pub open spec fn room(limit: nat, held: nat) -> nat {
    if held <= limit {
        (limit - held) as nat
    } else {
        0
    }
}

/// The beginning of `s`, at most `n` long.
pub open spec fn prefix(s: Seq<u8>, n: nat) -> Seq<u8> {
    if s.len() <= n {
        s
    } else {
        s.take(n as int)
    }
}

impl CaptureGuard {
    /// The bytes held so far.
    pub closed spec fn held(self) -> Seq<u8> {
        self.buf@
    }

    /// The bytes that flowed through so far.
    pub closed spec fn flowed(self) -> nat {
        self.total as nat
    }

    /// Whether some byte was left out.
    pub closed spec fn is_truncated(self) -> bool {
        self.truncated
    }

    /// The most bytes that are held.
    pub closed spec fn cap(self) -> nat {
        self.limit as nat
    }

    /// Whether the capture has not been handed over yet.
    pub closed spec fn is_open(self) -> bool {
        self.open
    }

    /// The guard holds what there is to hold of the data `stream`: its
    /// beginning up to the cap, its length, and whether it is longer than the
    /// cap.
    pub open spec fn captures(self, stream: Seq<u8>) -> bool {
        &&& self.held() == prefix(stream, self.cap())
        &&& self.flowed() == stream.len()
        &&& self.is_truncated() == (stream.len() > self.cap())
    }

    /// A guard that captures at most `limit` bytes.
    pub fn new(limit: usize) -> (r: Self)
        ensures
            r.captures(Seq::empty()),
            r.cap() == limit,
            r.is_open(),
    {
        CaptureGuard { buf: Vec::new(), total: 0, truncated: false, limit, open: true }
    }

    /// Data flowed through.
    pub fn push(&mut self, data: &[u8])
        requires
            old(self).flowed() + data@.len() <= u64::MAX,
        ensures
            final(self).held() == old(self).held() + prefix(
                data@,
                room(old(self).cap(), old(self).held().len()),
            ),
            final(self).flowed() == old(self).flowed() + data@.len(),
            final(self).is_truncated() == (old(self).is_truncated() || data@.len() > room(
                old(self).cap(),
                old(self).held().len(),
            )),
            final(self).cap() == old(self).cap(),
            final(self).is_open() == old(self).is_open(),
            forall|stream: Seq<u8>| #[trigger]
                old(self).captures(stream) ==> final(self).captures(stream + data@),
    {
        let n: usize = data.len();
        self.total = self.total + n as u64;
        let held: usize = self.buf.len();
        let room: usize = if held <= self.limit {
            self.limit - held
        } else {
            0
        };
        if room >= n {
            self.buf.extend_from_slice(data);
        } else {
            let part = slice_subrange(data, 0, room);
            self.buf.extend_from_slice(part);
            self.truncated = true;
        }
        proof {
            assert(self.held() =~= old(self).held() + prefix(
                data@,
                crate::tee::room(old(self).cap(), old(self).held().len()),
            ));
            assert forall|stream: Seq<u8>| #[trigger] old(self).captures(stream) implies self.captures(
                stream + data@,
            ) by {
                assert(self.held() =~= prefix(stream + data@, self.cap()));
            }
        }
    }

    /// Hand the capture over, if it has not been before.
    pub fn finish(&mut self, completed: bool) -> (r: Option<CapturedBody>)
        ensures
            !final(self).is_open(),
            final(self).cap() == old(self).cap(),
            final(self).flowed() == old(self).flowed(),
            final(self).is_truncated() == old(self).is_truncated(),
            final(self).held() == (if old(self).is_open() {
                Seq::<u8>::empty()
            } else {
                old(self).held()
            }),
            match r {
                Some(c) => {
                    &&& old(self).is_open()
                    &&& c.bytes@ == old(self).held()
                    &&& c.total == old(self).flowed()
                    &&& c.truncated == old(self).is_truncated()
                    &&& c.completed == completed
                },
                None => !old(self).is_open(),
            },
    {
        if self.open {
            self.open = false;
            let mut bytes: Vec<u8> = Vec::new();
            std::mem::swap(&mut bytes, &mut self.buf);
            Some(CapturedBody { bytes, total: self.total, truncated: self.truncated, completed })
        } else {
            None
        }
    }

    /// React to what happens to the body; the capture, once it is due.
    pub fn observe(&mut self, event: BodyEvent<'_>) -> (r: Option<CapturedBody>)
        requires
            event is Data ==> old(self).flowed() + event->Data_0@.len() <= u64::MAX,
        ensures
            final(self).cap() == old(self).cap(),
            match event {
                BodyEvent::Data(data) => {
                    &&& r is None
                    &&& final(self).is_open() == old(self).is_open()
                    &&& final(self).held() == old(self).held() + prefix(
                        data@,
                        room(old(self).cap(), old(self).held().len()),
                    )
                    &&& final(self).is_truncated() == (old(self).is_truncated() || data@.len()
                        > room(old(self).cap(), old(self).held().len()))
                    &&& final(self).flowed() == old(self).flowed() + data@.len()
                    &&& forall|stream: Seq<u8>| #[trigger]
                        old(self).captures(stream) ==> final(self).captures(stream + data@)
                },
                BodyEvent::Other => r is None && *final(self) == *old(self),
                BodyEvent::End | BodyEvent::Failed | BodyEvent::Dropped => {
                    &&& !final(self).is_open()
                    &&& final(self).flowed() == old(self).flowed()
                    &&& final(self).is_truncated() == old(self).is_truncated()
                    &&& final(self).held() == (if old(self).is_open() {
                        Seq::<u8>::empty()
                    } else {
                        old(self).held()
                    })
                    &&& match r {
                        Some(c) => {
                            &&& old(self).is_open()
                            &&& c.bytes@ == old(self).held()
                            &&& c.total == old(self).flowed()
                            &&& c.truncated == old(self).is_truncated()
                            &&& c.completed == (event is End)
                        },
                        None => !old(self).is_open(),
                    }
                },
            },
    {
        match event {
            BodyEvent::Data(data) => {
                self.push(data);
                None
            },
            BodyEvent::Other => None,
            BodyEvent::Failed => self.finish(false),
            BodyEvent::End => self.finish(true),
            BodyEvent::Dropped => self.finish(false),
        }
    }
}

/// A capture is the beginning of what flowed through, byte by byte: all of it
/// up to the cap, and no more. It is marked truncated exactly where something
/// is left out, and everything is counted.
pub proof fn law_capture_is_the_beginning(guard: CaptureGuard, stream: Seq<u8>)
    requires
        guard.captures(stream),
    ensures
        guard.held().len() <= guard.cap(),
        guard.held().len() <= stream.len(),
        guard.held().len() == guard.cap() || guard.held().len() == stream.len(),
        forall|i: int| 0 <= i < guard.held().len() ==> #[trigger] guard.held()[i] == stream[i],
        guard.flowed() == stream.len(),
        guard.is_truncated() <==> guard.held().len() < stream.len(),
{
}

/// How much of new data is taken: what still fits below the cap, from the
/// beginning of the data on.
pub proof fn law_room_is_what_is_left(limit: nat, held: nat, data: Seq<u8>)
    ensures
        held <= limit ==> held + room(limit, held) == limit,
        held >= limit ==> room(limit, held) == 0,
        prefix(data, room(limit, held)).len() <= data.len(),
        prefix(data, room(limit, held)).len() <= room(limit, held),
        prefix(data, room(limit, held)).len() == data.len() || prefix(
            data,
            room(limit, held),
        ).len() == room(limit, held),
        forall|i: int|
            0 <= i < prefix(data, room(limit, held)).len() ==> #[trigger] prefix(
                data,
                room(limit, held),
            )[i] == data[i],
{
}

/// Data that flows through is added to what is held as far as it fits, byte by
/// byte from its beginning, and counted in full; a body is truncated once
/// something did not fit.
pub proof fn law_data_is_held_up_to_the_cap(data: &[u8])
    ensures
        forall|guard: &mut CaptureGuard|
            #[trigger] call_ensures(CaptureGuard::push, (guard, data), ()) && guard.held().len()
                <= guard.cap() ==> {
                let before = guard.held();
                let after = final(guard).held();
                &&& after.len() <= guard.cap()
                &&& before.len() <= after.len() <= before.len() + data@.len()
                &&& after.len() == guard.cap() || after.len() == before.len() + data@.len()
                &&& forall|i: int| 0 <= i < before.len() ==> #[trigger] after[i] == before[i]
                &&& forall|i: int|
                    before.len() <= i < after.len() ==> #[trigger] after[i] == data@[i
                        - before.len()]
                &&& final(guard).flowed() == guard.flowed() + data@.len()
                &&& final(guard).is_truncated() <==> guard.is_truncated() || after.len()
                    < before.len() + data@.len()
                &&& final(guard).cap() == guard.cap()
            },
{
}

/// A capture is handed over once, when its body ends, fails or is dropped, and
/// holds what was captured; it is complete only where the body reached its
/// end.
pub proof fn law_capture_is_handed_over_once()
    ensures
        forall|guard: &mut CaptureGuard, r: Option<CapturedBody>|
            #[trigger] call_ensures(CaptureGuard::observe, (guard, BodyEvent::End), r) ==> {
                &&& r is Some <==> guard.is_open()
                &&& r is Some ==> r->0.completed && r->0.bytes@ == guard.held() && r->0.total
                    == guard.flowed() && r->0.truncated == guard.is_truncated()
                &&& !final(guard).is_open()
            },
        forall|guard: &mut CaptureGuard, r: Option<CapturedBody>|
            #[trigger] call_ensures(CaptureGuard::observe, (guard, BodyEvent::Failed), r) ==> {
                &&& r is Some <==> guard.is_open()
                &&& r is Some ==> !r->0.completed && r->0.bytes@ == guard.held()
                &&& !final(guard).is_open()
            },
        forall|guard: &mut CaptureGuard, r: Option<CapturedBody>|
            #[trigger] call_ensures(CaptureGuard::observe, (guard, BodyEvent::Dropped), r) ==> {
                &&& r is Some <==> guard.is_open()
                &&& r is Some ==> !r->0.completed && r->0.bytes@ == guard.held()
                &&& !final(guard).is_open()
            },
        forall|guard: &mut CaptureGuard, r: Option<CapturedBody>|
            #[trigger] call_ensures(CaptureGuard::observe, (guard, BodyEvent::Other), r) ==> r
                is None && *final(guard) == *guard,
{
}

/// A new capture is empty and open, and has the cap that it was made with.
pub proof fn law_new_capture_is_empty(limit: usize, guard: CaptureGuard)
    requires
        call_ensures(CaptureGuard::new, (limit,), guard),
    ensures
        guard.held().len() == 0,
        guard.flowed() == 0,
        !guard.is_truncated(),
        guard.cap() == limit,
        guard.is_open(),
{
}

} // verus!
