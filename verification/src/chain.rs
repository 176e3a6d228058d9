//! The interceptor chain, the seam that every transaction passes through.
//!
//! Requests go down the chain in order until one interceptor answers; if none
//! does, the request is forwarded upstream. The response then goes back up
//! through every interceptor, in reverse order.

use vstd::prelude::*;

verus! {

/// What an interceptor decides to do with a request.
#[derive(Debug, Clone, Copy, PartialEq, Eq, Structural)]
pub enum RequestAction {
    /// Pass the (possibly modified) request down the chain.
    Continue,
    /// Short-circuit: answer without contacting upstream (mocks, blocks).
    Respond,
}

/// What is to be done next with a transaction.
#[derive(Debug, Clone, Copy, PartialEq, Eq, Structural)]
pub enum ChainStep {
    /// Hand the request to this interceptor.
    Request(usize),
    /// Send the request upstream.
    Forward,
    /// Hand the response to this interceptor.
    Response(usize),
    /// Deliver the response to the client.
    Done,
}

/// The step at a position of a pass through a chain of `count` interceptors
/// of which `responder` answered the request.
pub open spec fn chain_step(count: nat, responder: Option<nat>, position: nat) -> ChainStep {
    let asked = match responder {
        Some(k) => k + 1,
        None => count,
    };
    let forwards: nat = if responder is None {
        1
    } else {
        0
    };
    if position < asked {
        ChainStep::Request(position as usize)
    } else if position < asked + forwards {
        ChainStep::Forward
    } else if position < asked + forwards + count {
        ChainStep::Response((count - 1 - (position - asked - forwards)) as usize)
    } else {
        ChainStep::Done
    }
}

/// One pass through the chain.
pub struct Chain {
    count: usize,
    asked: usize,
    responded: bool,
    forwarded: bool,
    answered: usize,
}

impl Chain {
    #[verifier::type_invariant]
    spec fn wf(self) -> bool {
        &&& self.asked <= self.count
        &&& self.answered <= self.count
        &&& self.responded ==> self.asked > 0 && !self.forwarded
        &&& self.forwarded ==> self.asked == self.count
        &&& self.answered > 0 ==> self.responded || self.forwarded
    }

    /// The number of interceptors.
    pub closed spec fn count(self) -> nat {
        self.count as nat
    }

    /// The interceptor that answered the request, if one did so far.
    pub closed spec fn responder(self) -> Option<nat> {
        if self.responded {
            Some((self.asked - 1) as nat)
        } else {
            None
        }
    }

    /// How many steps were taken.
    pub closed spec fn position(self) -> nat {
        self.asked as nat + (if self.forwarded {
            1nat
        } else {
            0nat
        }) + self.answered as nat
    }

    /// A pass through a chain of `count` interceptors.
    pub fn new(count: usize) -> (r: Self)
        ensures
            r.count() == count,
            r.responder() is None,
            r.position() == 0,
    {
        Chain { count, asked: 0, responded: false, forwarded: false, answered: 0 }
    }

    /// What is to be done next.
    pub fn step(&self) -> (r: ChainStep)
        ensures
            r == chain_step(self.count(), self.responder(), self.position()),
    {
        proof {
            use_type_invariant(self);
        }
        if !self.responded && self.asked < self.count {
            ChainStep::Request(self.asked)
        } else if !self.responded && !self.forwarded {
            ChainStep::Forward
        } else if self.answered < self.count {
            ChainStep::Response(self.count - 1 - self.answered)
        } else {
            ChainStep::Done
        }
    }

    /// The step was taken. `action` is what the interceptor decided, where
    /// the step handed it the request.
    pub fn advance(&mut self, action: RequestAction)
        ensures
            final(self).count() == old(self).count(),
            ({
                let step = chain_step(
                    old(self).count(),
                    old(self).responder(),
                    old(self).position(),
                );
                &&& final(self).position() == (if step is Done {
                    old(self).position()
                } else {
                    old(self).position() + 1
                })
                &&& final(self).responder() == (if step is Request && action is Respond {
                    Some(old(self).position())
                } else {
                    old(self).responder()
                })
            }),
    {
        proof {
            use_type_invariant(&*self);
        }
        if !self.responded && self.asked < self.count {
            self.asked = self.asked + 1;
            match action {
                RequestAction::Respond => {
                    self.responded = true;
                },
                RequestAction::Continue => {},
            }
        } else if !self.responded && !self.forwarded {
            self.forwarded = true;
        } else if self.answered < self.count {
            self.answered = self.answered + 1;
        }
    }
}

/// A request is forwarded upstream exactly when no interceptor answered it.
pub proof fn law_forwarded_unless_answered(count: nat, responder: Option<nat>)
    requires
        responder is Some ==> responder->0 < count,
    ensures
        (exists|p: nat| chain_step(count, responder, p) is Forward) <==> responder is None,
{
    if responder is None {
        assert(chain_step(count, responder, count) is Forward);
    }
}

/// Requests reach the interceptors in order, and none after the one that
/// answered.
pub proof fn law_requests_in_order(count: usize, responder: Option<nat>, p: nat)
    requires
        responder is Some ==> responder->0 < count,
    ensures
        match chain_step(count as nat, responder, p) {
            ChainStep::Request(i) => i == p && (responder is Some ==> i <= responder->0),
            _ => true,
        },
        responder is None && p < count ==> chain_step(count as nat, responder, p)
            == ChainStep::Request(p as usize),
        responder is Some && p <= responder->0 ==> chain_step(count as nat, responder, p)
            == ChainStep::Request(p as usize),
{
}

/// Where in a pass interceptor `i` sees the response.
pub open spec fn response_position(count: nat, responder: Option<nat>, i: nat) -> int {
    match responder {
        Some(k) => k + 1 + (count - 1 - i),
        None => count + 1 + (count - 1 - i),
    }
}

/// Every interceptor sees the response, whoever answered: interceptor `i`
/// sees it exactly once, and after all interceptors behind it in the chain.
pub proof fn law_responses_in_reverse(
    count: usize,
    responder: Option<nat>,
    i: usize,
    j: usize,
    p: nat,
)
    requires
        responder is Some ==> responder->0 < count,
        i < count,
    ensures
        chain_step(count as nat, responder, p) == ChainStep::Response(i) <==> p
            == response_position(count as nat, responder, i as nat),
        i < j ==> response_position(count as nat, responder, j as nat) < response_position(
            count as nat,
            responder,
            i as nat,
        ),
{
}

/// A whole pass, step by step. Where no interceptor answers, the request goes
/// to each of them from the first to the last, then upstream, and the response
/// from the last to the first. Where one answers, the request goes as far as
/// that one and not upstream, and the response again from the last to the
/// first. Then the pass is done.
pub proof fn law_whole_pass(count: usize, responder: usize, k: usize, p: nat)
    requires
        responder < count,
        k < count,
    ensures
        chain_step(count as nat, None, k as nat) == ChainStep::Request(k),
        chain_step(count as nat, None, count as nat) is Forward,
        chain_step(count as nat, None, (2 * count - k) as nat) == ChainStep::Response(k),
        p > 2 * count ==> chain_step(count as nat, None, p) is Done,
        k <= responder ==> chain_step(count as nat, Some(responder as nat), k as nat)
            == ChainStep::Request(k),
        chain_step(count as nat, Some(responder as nat), (responder + count - k) as nat)
            == ChainStep::Response(k),
        p > responder + count ==> chain_step(count as nat, Some(responder as nat), p) is Done,
        !(chain_step(count as nat, Some(responder as nat), p) is Forward),
{
}

/// A pass through no interceptors is the way upstream and nothing else.
pub proof fn law_empty_chain_forwards(p: nat)
    ensures
        chain_step(0, None, 0) is Forward,
        p > 0 ==> chain_step(0, None, p) is Done,
{
}

/// A pass goes one step at a time until it is done; an interceptor answers
/// only where it was handed the request and chose to.
pub proof fn law_pass_goes_step_by_step(action: RequestAction)
    ensures
        forall|chain: &mut Chain|
            #[trigger] call_ensures(Chain::advance, (chain, action), ()) ==> {
                let step = chain_step(chain.count(), chain.responder(), chain.position());
                &&& final(chain).count() == chain.count()
                &&& step is Done ==> final(chain).position() == chain.position()
                &&& !(step is Done) ==> final(chain).position() == chain.position() + 1
                &&& step is Request && action is Respond ==> final(chain).responder() == Some(
                    chain.position(),
                )
                &&& !(step is Request) || action is Continue ==> final(chain).responder()
                    == chain.responder()
            },
{
}

} // verus!
