//! The negotiation state of each counterparty conversation.
use vstd::prelude::*;
use crate::registry::bytes_eq;

verus! {

#[derive(Clone, Copy, Debug, PartialEq, Eq, Structural)]
pub enum ConvState {
    Idle,
    OfferSent,
    OfferReceived,
    AcceptSent,
    AcceptReceived,
    Funded,
    Rejected,
    Timeout,
}

/// What happens in a conversation: a message sent or received, a rejection, a timeout.
#[derive(Clone, Copy, Debug, PartialEq, Eq, Structural)]
pub enum Step {
    SendOffer,
    ReceiveOffer,
    SendAccept,
    ReceiveAccept,
    SendSign,
    ReceiveSign,
    Reject,
    Expire,
}

#[derive(Clone, Copy, Debug, PartialEq, Eq, Structural)]
pub enum ProtocolError {
    StateTransitionInvalid(ConvState, Step),
}

pub open spec fn is_terminal(s: ConvState) -> bool {
    s == ConvState::Funded || s == ConvState::Rejected || s == ConvState::Timeout
}

/// The state that `e` leads to from `s`; `None` where the transition is not allowed.
pub open spec fn next_state(s: ConvState, e: Step) -> Option<ConvState> {
    match (s, e) {
        (ConvState::Idle, Step::SendOffer) => Some(ConvState::OfferSent),
        (ConvState::Idle, Step::ReceiveOffer) => Some(ConvState::OfferReceived),
        (ConvState::OfferReceived, Step::SendAccept) => Some(ConvState::AcceptSent),
        (ConvState::AcceptSent, Step::ReceiveSign) => Some(ConvState::Funded),
        (ConvState::OfferSent, Step::ReceiveAccept) => Some(ConvState::AcceptReceived),
        (ConvState::AcceptReceived, Step::SendSign) => Some(ConvState::Funded),
        (_, Step::Reject) => if is_terminal(s) {
            None
        } else {
            Some(ConvState::Rejected)
        },
        (_, Step::Expire) => if is_terminal(s) {
            None
        } else {
            Some(ConvState::Timeout)
        },
        _ => None,
    }
}

/// Applies one step to a conversation state.
pub fn transition(s: ConvState, e: Step) -> (r: Result<ConvState, ProtocolError>)
    ensures
        match next_state(s, e) {
            Some(n) => r == Ok::<ConvState, ProtocolError>(n),
            None => r == Err::<ConvState, ProtocolError>(
                ProtocolError::StateTransitionInvalid(s, e),
            ),
        },
{
    let terminal = match s {
        ConvState::Funded | ConvState::Rejected | ConvState::Timeout => true,
        _ => false,
    };
    match (s, e) {
        (ConvState::Idle, Step::SendOffer) => Ok(ConvState::OfferSent),
        (ConvState::Idle, Step::ReceiveOffer) => Ok(ConvState::OfferReceived),
        (ConvState::OfferReceived, Step::SendAccept) => Ok(ConvState::AcceptSent),
        (ConvState::AcceptSent, Step::ReceiveSign) => Ok(ConvState::Funded),
        (ConvState::OfferSent, Step::ReceiveAccept) => Ok(ConvState::AcceptReceived),
        (ConvState::AcceptReceived, Step::SendSign) => Ok(ConvState::Funded),
        (_, Step::Reject) => if terminal {
            Err(ProtocolError::StateTransitionInvalid(s, e))
        } else {
            Ok(ConvState::Rejected)
        },
        (_, Step::Expire) => if terminal {
            Err(ProtocolError::StateTransitionInvalid(s, e))
        } else {
            Ok(ConvState::Timeout)
        },
        _ => Err(ProtocolError::StateTransitionInvalid(s, e)),
    }
}

/// The state reached from `s` by the steps `es` in order, if every one is allowed.
pub open spec fn run_steps(s: ConvState, es: Seq<Step>) -> Option<ConvState>
    decreases es.len(),
{
    if es.len() == 0 {
        Some(s)
    } else {
        match next_state(s, es[0]) {
            Some(n) => run_steps(n, es.drop_first()),
            None => None,
        }
    }
}

/// No step leaves a terminal state.
pub proof fn lemma_terminal_is_final(s: ConvState, e: Step)
    requires
        is_terminal(s),
    ensures
        next_state(s, e) is None,
{
}

/// The two sides of a negotiation both end `Funded`: the offerer by sending the offer,
/// receiving the accept and sending the sign; the accepter by receiving the offer,
/// sending the accept and receiving the sign.
pub proof fn lemma_happy_path()
    ensures
        run_steps(ConvState::Idle, seq![Step::SendOffer, Step::ReceiveAccept, Step::SendSign])
            == Some(ConvState::Funded),
        run_steps(ConvState::Idle, seq![Step::ReceiveOffer, Step::SendAccept, Step::ReceiveSign])
            == Some(ConvState::Funded),
{
    reveal_with_fuel(run_steps, 4);
    let a = seq![Step::SendOffer, Step::ReceiveAccept, Step::SendSign];
    assert(a.drop_first() =~= seq![Step::ReceiveAccept, Step::SendSign]);
    assert(a.drop_first().drop_first() =~= seq![Step::SendSign]);
    assert(a.drop_first().drop_first().drop_first() =~= Seq::<Step>::empty());
    let b = seq![Step::ReceiveOffer, Step::SendAccept, Step::ReceiveSign];
    assert(b.drop_first() =~= seq![Step::SendAccept, Step::ReceiveSign]);
    assert(b.drop_first().drop_first() =~= seq![Step::ReceiveSign]);
    assert(b.drop_first().drop_first().drop_first() =~= Seq::<Step>::empty());
}

/// The state of the conversation with `who`: `Idle` where none has begun.
pub open spec fn state_of(s: Seq<(Seq<u8>, ConvState)>, who: Seq<u8>) -> ConvState
    decreases s.len(),
{
    if s.len() == 0 {
        ConvState::Idle
    } else if s.last().0 == who {
        s.last().1
    } else {
        state_of(s.drop_last(), who)
    }
}

/// The conversation states, one per counterparty public key.
pub struct Conversations {
    entries: Vec<(Vec<u8>, ConvState)>,
}

impl View for Conversations {
    type V = Seq<(Seq<u8>, ConvState)>;

    closed spec fn view(&self) -> Seq<(Seq<u8>, ConvState)> {
        self.entries@.map_values(|e: (Vec<u8>, ConvState)| (e.0@, e.1))
    }
}

proof fn lemma_state_of_update(s: Seq<(Seq<u8>, ConvState)>, i: int, who: Seq<u8>, n: ConvState)
    requires
        0 <= i < s.len(),
        s[i].0 == who,
    ensures
        forall|w: Seq<u8>| w != who ==> state_of(s.update(i, (who, n)), w) == state_of(s, w),
    decreases s.len(),
{
    let u = s.update(i, (who, n));
    if i == s.len() - 1 {
        assert(u.drop_last() =~= s.drop_last());
        assert forall|w: Seq<u8>| w != who implies state_of(u, w) == state_of(s, w) by {
            assert(u.last().0 == who && s.last().0 == who);
        }
    } else {
        lemma_state_of_update(s.drop_last(), i, who, n);
        assert(u.drop_last() =~= s.drop_last().update(i, (who, n)));
        assert forall|w: Seq<u8>| w != who implies state_of(u, w) == state_of(s, w) by {
            assert(u.last() == s.last());
            assert(state_of(s.drop_last().update(i, (who, n)), w) == state_of(s.drop_last(), w));
        }
    }
}

proof fn lemma_state_of_push(s: Seq<(Seq<u8>, ConvState)>, who: Seq<u8>, n: ConvState)
    ensures
        state_of(s.push((who, n)), who) == n,
        forall|w: Seq<u8>| w != who ==> state_of(s.push((who, n)), w) == state_of(s, w),
{
    assert(s.push((who, n)).drop_last() =~= s);
}

proof fn lemma_state_of_absent(s: Seq<(Seq<u8>, ConvState)>, who: Seq<u8>)
    requires
        forall|j: int| 0 <= j < s.len() ==> (#[trigger] s[j]).0 != who,
    ensures
        state_of(s, who) == ConvState::Idle,
    decreases s.len(),
{
    if s.len() > 0 {
        assert(s[s.len() - 1].0 != who);
        lemma_state_of_absent(s.drop_last(), who);
    }
}

proof fn lemma_state_of_at(s: Seq<(Seq<u8>, ConvState)>, i: int, who: Seq<u8>)
    requires
        0 <= i < s.len(),
        s[i].0 == who,
        forall|a: int, b: int| 0 <= a < b < s.len() ==> (#[trigger] s[a]).0 != (#[trigger] s[b]).0,
    ensures
        state_of(s, who) == s[i].1,
    decreases s.len(),
{
    if i < s.len() - 1 {
        assert(s[s.len() - 1].0 != who);
        lemma_state_of_at(s.drop_last(), i, who);
    }
}

impl Conversations {
    pub closed spec fn wf(&self) -> bool {
        forall|a: int, b: int|
            0 <= a < b < self@.len() ==> (#[trigger] self@[a]).0 != (#[trigger] self@[b]).0
    }

    /// The state of the conversation with `who`.
    pub open spec fn state(&self, who: Seq<u8>) -> ConvState {
        state_of(self@, who)
    }

    /// No conversation has begun.
    pub fn new() -> (r: Conversations)
        ensures
            r.wf(),
            forall|w: Seq<u8>| r.state(w) == ConvState::Idle,
    {
        let r = Conversations { entries: Vec::new() };
        assert(r@ =~= Seq::<(Seq<u8>, ConvState)>::empty());
        r
    }

    fn find(&self, who: &Vec<u8>) -> (r: Option<usize>)
        ensures
            match r {
                Some(i) => i < self@.len() && self@[i as int].0 == who@,
                None => forall|j: int| 0 <= j < self@.len() ==> (#[trigger] self@[j]).0 != who@,
            },
    {
        let mut i: usize = 0;
        while i < self.entries.len()
            invariant
                i <= self@.len(),
                self@.len() == self.entries@.len(),
                forall|j: int| 0 <= j < i ==> (#[trigger] self@[j]).0 != who@,
            decreases self@.len() - i,
        {
            if bytes_eq(&self.entries[i].0, who) {
                return Some(i);
            }
            i = i + 1;
        }
        None
    }

    /// The current state of the conversation with `who`.
    pub fn get(&self, who: &Vec<u8>) -> (r: ConvState)
        requires
            self.wf(),
        ensures
            r == self.state(who@),
    {
        match self.find(who) {
            Some(i) => {
                proof {
                    lemma_state_of_at(self@, i as int, who@);
                }
                self.entries[i].1
            },
            None => {
                proof {
                    lemma_state_of_absent(self@, who@);
                }
                ConvState::Idle
            },
        }
    }

    /// Applies step `e` to the conversation with `who`. A step that is not allowed
    /// leaves every conversation as it was.
    pub fn advance(&mut self, who: &Vec<u8>, e: Step) -> (r: Result<ConvState, ProtocolError>)
        requires
            old(self).wf(),
        ensures
            final(self).wf(),
            match next_state(old(self).state(who@), e) {
                Some(n) => r == Ok::<ConvState, ProtocolError>(n) && final(self).state(who@) == n,
                None => r == Err::<ConvState, ProtocolError>(
                    ProtocolError::StateTransitionInvalid(old(self).state(who@), e),
                ) && final(self)@ == old(self)@,
            },
            forall|w: Seq<u8>| w != who@ ==> final(self).state(w) == old(self).state(w),
    {
        let cur = self.get(who);
        let n = match transition(cur, e) {
            Ok(n) => n,
            Err(err) => return Err(err),
        };
        let ghost s = self@;
        match self.find(who) {
            Some(i) => {
                self.entries.set(i, (who.clone(), n));
                assert(self@ =~= s.update(i as int, (who@, n)));
                proof {
                    lemma_state_of_update(s, i as int, who@, n);
                    lemma_state_of_at(self@, i as int, who@);
                }
            },
            None => {
                self.entries.push((who.clone(), n));
                assert(self@ =~= s.push((who@, n)));
                proof {
                    lemma_state_of_push(s, who@, n);
                }
            },
        }
        Ok(n)
    }
}

} // verus!
