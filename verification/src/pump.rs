//! The event pump: transaction events are batched, so that a busy proxy
//! overwhelms neither the channel to the UI nor its render loop; state
//! changes go out immediately.

use vstd::prelude::*;

use crate::events::{CaState, ProxyEvent, ProxyStatus};

verus! {

/// Milliseconds between two batches.
pub const TICK_MS: u64 = 100;

/// How many events a subscriber may lag behind before it loses some.
pub const EVENT_BUS_CAPACITY: usize = 4096;

/// The name of the events that carry the state of the proxy.
pub const PROXY_STATE: &'static str = "proxy:state";

/// The name of the events that carry the state of the CA.
pub const CA_STATE: &'static str = "ca:state";

/// The name of the events that carry a batch of transaction events.
pub const TRAFFIC_BATCH: &'static str = "traffic:batch";

/// What goes out to the UI at once.
#[derive(Debug)]
pub enum Emit {
    Proxy(ProxyStatus),
    Ca(CaState),
    /// Nothing.
    Nothing,
}

/// Whether an event waits for a batch.
pub open spec fn is_batched(e: ProxyEvent) -> bool {
    !(e is ProxyState) && !(e is CaState)
}

/// The events that wait for the next batch.
pub struct EventPump {
    buffer: Vec<ProxyEvent>,
}

impl EventPump {
    /// The events that wait.
    pub closed spec fn waiting(self) -> Seq<ProxyEvent> {
        self.buffer@
    }

    pub fn new() -> (r: Self)
        ensures
            r.waiting() == Seq::<ProxyEvent>::empty(),
    {
        EventPump { buffer: Vec::new() }
    }

    /// An event came: what goes out at once.
    pub fn receive(&mut self, event: ProxyEvent) -> (r: Emit)
        ensures
            match event {
                ProxyEvent::ProxyState(status) => r == Emit::Proxy(status) && final(self).waiting()
                    == old(self).waiting(),
                ProxyEvent::CaState(ca) => r == Emit::Ca(ca) && final(self).waiting()
                    == old(self).waiting(),
                _ => r is Nothing && final(self).waiting() == old(self).waiting().push(event),
            },
    {
        match event {
            ProxyEvent::ProxyState(status) => Emit::Proxy(status),
            ProxyEvent::CaState(ca) => Emit::Ca(ca),
            ProxyEvent::TransactionStarted(s) => {
                self.buffer.push(ProxyEvent::TransactionStarted(s));
                Emit::Nothing
            },
            ProxyEvent::TransactionUpdated(s) => {
                self.buffer.push(ProxyEvent::TransactionUpdated(s));
                Emit::Nothing
            },
            ProxyEvent::TransactionCompleted(s) => {
                self.buffer.push(ProxyEvent::TransactionCompleted(s));
                Emit::Nothing
            },
        }
    }

    /// It is time for a batch: the events that waited, unless there are none.
    pub fn tick(&mut self) -> (r: Option<Vec<ProxyEvent>>)
        ensures
            final(self).waiting() == Seq::<ProxyEvent>::empty(),
            match r {
                Some(batch) => batch@ == old(self).waiting() && batch@.len() > 0,
                None => old(self).waiting().len() == 0,
            },
    {
        if self.buffer.len() == 0 {
            return None;
        }
        let mut batch: Vec<ProxyEvent> = Vec::new();
        std::mem::swap(&mut batch, &mut self.buffer);
        Some(batch)
    }

    /// No more events will come: a last batch of the events that waited, unless
    /// there are none.
    pub fn close(self) -> (r: Option<Vec<ProxyEvent>>)
        ensures
            match r {
                Some(batch) => batch@ == self.waiting() && batch@.len() > 0,
                None => self.waiting().len() == 0,
            },
    {
        if self.buffer.len() == 0 {
            return None;
        }
        Some(self.buffer)
    }
}

/// What happens to a pump.
pub enum Input {
    Event(ProxyEvent),
    Tick,
}

/// The events that went out in batches, and those that still wait.
pub open spec fn pumped(inputs: Seq<Input>) -> (Seq<ProxyEvent>, Seq<ProxyEvent>)
    decreases inputs.len(),
{
    if inputs.len() == 0 {
        (Seq::empty(), Seq::empty())
    } else {
        let (sent, waiting) = pumped(inputs.drop_last());
        match inputs.last() {
            Input::Tick => (sent + waiting, Seq::empty()),
            Input::Event(e) => if is_batched(e) {
                (sent, waiting.push(e))
            } else {
                (sent, waiting)
            },
        }
    }
}

/// The events that are batched, in the order in which they came.
pub open spec fn batched(inputs: Seq<Input>) -> Seq<ProxyEvent>
    decreases inputs.len(),
{
    if inputs.len() == 0 {
        Seq::empty()
    } else {
        let before = batched(inputs.drop_last());
        match inputs.last() {
            Input::Event(e) if is_batched(e) => before.push(e),
            _ => before,
        }
    }
}

/// The events that went out in batches once the pump was closed, with the last
/// batch.
pub open spec fn pumped_and_closed(inputs: Seq<Input>) -> Seq<ProxyEvent> {
    pumped(inputs).0 + pumped(inputs).1
}

/// Batching loses no event, doubles none and keeps their order. After a tick
/// all of them have gone out, and so they have once the pump is closed.
pub proof fn law_batches_keep_every_event(inputs: Seq<Input>)
    ensures
        pumped(inputs).0 + pumped(inputs).1 == batched(inputs),
        pumped_and_closed(inputs) == batched(inputs),
        inputs.len() > 0 && inputs.last() is Tick ==> pumped(inputs).0 == batched(inputs),
    decreases inputs.len(),
{
    if inputs.len() > 0 {
        law_batches_keep_every_event(inputs.drop_last());
        let (sent, waiting) = pumped(inputs.drop_last());
        match inputs.last() {
            Input::Tick => {
                assert(sent + waiting + Seq::<ProxyEvent>::empty() =~= sent + waiting);
            },
            Input::Event(e) => {
                assert(sent + waiting.push(e) =~= (sent + waiting).push(e));
            },
        }
    } else {
        assert(pumped(inputs).0 + pumped(inputs).1 =~= batched(inputs));
    }
}

/// What waits for a batch is what tells of transactions, and nothing else;
/// what tells of the proxy or of the CA never waits.
pub proof fn law_only_transactions_wait(e: ProxyEvent)
    ensures
        is_batched(e) <==> e is TransactionStarted || e is TransactionUpdated
            || e is TransactionCompleted,
        e is ProxyState || e is CaState ==> !is_batched(e),
{
}

/// Every event of a transaction is batched, in the order in which they came,
/// whatever else happens in between.
pub proof fn law_batched_in_order(inputs: Seq<Input>, e: ProxyEvent)
    ensures
        batched(Seq::empty()).len() == 0,
        batched(inputs.push(Input::Tick)) == batched(inputs),
        e is TransactionStarted || e is TransactionUpdated || e is TransactionCompleted ==> batched(
            inputs.push(Input::Event(e)),
        ) == batched(inputs).push(e),
        e is ProxyState || e is CaState ==> batched(inputs.push(Input::Event(e))) == batched(
            inputs,
        ),
{
    assert(inputs.push(Input::Tick).drop_last() =~= inputs);
    assert(inputs.push(Input::Event(e)).drop_last() =~= inputs);
}

/// An event of a transaction waits behind those that came before it, and no
/// other does; a tick hands out all that wait, in their order.
pub proof fn law_pump_keeps_what_waits(event: ProxyEvent)
    ensures
        forall|pump: &mut EventPump, r: Emit|
            #[trigger] call_ensures(EventPump::receive, (pump, event), r) ==> {
                &&& event is TransactionStarted || event is TransactionUpdated
                    || event is TransactionCompleted ==> final(pump).waiting()
                    == pump.waiting().push(event) && r is Nothing
                &&& event is ProxyState ==> r == Emit::Proxy(event->ProxyState_0)
                    && final(pump).waiting() == pump.waiting()
                &&& event is CaState ==> r == Emit::Ca(event->CaState_0) && final(pump).waiting()
                    == pump.waiting()
            },
        forall|pump: &mut EventPump, r: Option<Vec<ProxyEvent>>|
            #[trigger] call_ensures(EventPump::tick, (pump,), r) ==> {
                &&& final(pump).waiting().len() == 0
                &&& r is Some <==> pump.waiting().len() > 0
                &&& r is Some ==> r->0@ == pump.waiting()
            },
{
}

} // verus!
