//! What tests share: a model that follows a script.
use vstd::prelude::*;

use crate::model;
use crate::model::{
    copy_messages, AssistantTurn, BackendError, Message, MessageV, TerminalKind, TurnRequest,
};

verus! {

/// What a scripted model says once its script is used up.
pub const EXHAUSTED: &'static str = "MockBackend script exhausted (over-drawn)";

/// A model that gives the outcomes of a script, one for each turn, and takes note
/// of what it was asked. A turn beyond the script fails, so that a loop which
/// takes too many is found out.
pub struct MockBackend {
    script: Vec<Result<AssistantTurn, BackendError>>,
    calls: u32,
    systems: Vec<Option<String>>,
    messages: Vec<Vec<Message>>,
}

/// The views of the system prompts.
pub open spec fn system_views(systems: Seq<Option<String>>) -> Seq<Option<Seq<char>>> {
    Seq::new(
        systems.len(),
        |i: int|
            match systems[i] {
                Some(s) => Some(s@),
                None => None,
            },
    )
}

/// The views of the histories.
pub open spec fn history_views(histories: Seq<Vec<Message>>) -> Seq<Seq<MessageV>> {
    Seq::new(histories.len(), |i: int| model::message_views(histories[i]@))
}

/// What a scripted model that was asked once more gives, and what becomes of it.
pub open spec fn turned(
    before: MockBackend,
    req: TurnRequest<'_>,
    r: Result<AssistantTurn, BackendError>,
    after: MockBackend,
) -> bool {
    &&& after.count() == before.count() + 1
    &&& after.systems_view() == before.systems_view().push(
        match req.system {
            Some(s) => Some(s@),
            None => None,
        },
    )
    &&& after.seen() == before.seen().push(model::message_views(req.messages@))
    &&& if before.left().len() > 0 {
        &&& r == before.left()[0]
        &&& after.left() == before.left().skip(1)
    } else {
        &&& r matches Err(BackendError::Terminal { kind, message }) && kind == TerminalKind::Other
            && message@ == EXHAUSTED@
        &&& after.left() == before.left()
    }
}

impl MockBackend {
    /// What is left of the script.
    pub closed spec fn left(self) -> Seq<Result<AssistantTurn, BackendError>> {
        self.script@
    }

    /// How many turns were asked for.
    pub closed spec fn count(self) -> u32 {
        self.calls
    }

    /// The system prompt of each turn.
    pub closed spec fn systems_view(self) -> Seq<Option<Seq<char>>> {
        system_views(self.systems@)
    }

    /// The messages of each turn.
    pub closed spec fn seen(self) -> Seq<Seq<MessageV>> {
        history_views(self.messages@)
    }

    /// A model that gives these outcomes, the first one first.
    pub fn new(script: Vec<Result<AssistantTurn, BackendError>>) -> (r: Self)
        ensures
            r.left() == script@,
            r.count() == 0,
            r.systems_view().len() == 0,
            r.seen().len() == 0,
    {
        MockBackend { script, calls: 0, systems: Vec::new(), messages: Vec::new() }
    }

    /// A model that gives these turns, the first one first, and no errors.
    pub fn from_turns(turns: Vec<AssistantTurn>) -> (r: Self)
        ensures
            r.left().len() == turns@.len(),
            forall|i: int|
                0 <= i < turns@.len() ==> #[trigger] r.left()[i] == Ok::<
                    AssistantTurn,
                    BackendError,
                >(turns@[i]),
            r.count() == 0,
            r.systems_view().len() == 0,
            r.seen().len() == 0,
    {
        let mut script: Vec<Result<AssistantTurn, BackendError>> = Vec::new();
        let ghost all = turns@;
        let mut rest = turns;
        while rest.len() > 0
            invariant
                script@.len() + rest@.len() == all.len(),
                rest@ == all.skip(script@.len() as int),
                forall|i: int|
                    0 <= i < script@.len() ==> #[trigger] script@[i] == Ok::<
                        AssistantTurn,
                        BackendError,
                    >(all[i]),
            decreases rest@.len(),
        {
            let turn = rest.remove(0);
            script.push(Ok(turn));
            proof {
                assert(rest@ =~= all.skip(script@.len() as int));
            }
        }
        MockBackend::new(script)
    }

    /// How many turns were asked for.
    pub fn calls(&self) -> (r: u32)
        ensures
            r == self.count(),
    {
        self.calls
    }

    /// The messages of the latest turn; none before the first.
    pub fn last_messages(&self) -> (r: Vec<Message>)
        ensures
            model::message_views(r@) == (if self.seen().len() == 0 {
                Seq::empty()
            } else {
                self.seen().last()
            }),
    {
        let n: usize = self.messages.len();
        if n == 0 {
            let none: Vec<Message> = Vec::new();
            proof {
                assert(model::message_views(none@) =~= Seq::<MessageV>::empty());
            }
            return none;
        }
        copy_messages(self.messages[n - 1].as_slice())
    }

    /// The system prompt of each turn, in order.
    pub fn systems_seen(&self) -> (r: Vec<Option<String>>)
        ensures
            system_views(r@) == self.systems_view(),
    {
        let mut out: Vec<Option<String>> = Vec::new();
        let mut i: usize = 0;
        while i < self.systems.len()
            invariant
                i <= self.systems@.len(),
                system_views(out@) == system_views(self.systems@).take(i as int),
            decreases self.systems@.len() - i,
        {
            let ghost before = system_views(out@);
            out.push(
                match &self.systems[i] {
                    Some(s) => Some(s.clone()),
                    None => None,
                },
            );
            proof {
                assert(system_views(out@) =~= before.push(system_views(self.systems@)[i as int]));
                assert(system_views(self.systems@).take(i + 1) =~= system_views(self.systems@).take(
                    i as int,
                ).push(system_views(self.systems@)[i as int]));
            }
            i = i + 1;
        }
        proof {
            assert(system_views(self.systems@).take(i as int) =~= system_views(self.systems@));
        }
        out
    }

    /// The messages of each turn, in order.
    pub fn messages_seen(&self) -> (r: Vec<Vec<Message>>)
        ensures
            history_views(r@) == self.seen(),
    {
        let mut out: Vec<Vec<Message>> = Vec::new();
        let mut i: usize = 0;
        while i < self.messages.len()
            invariant
                i <= self.messages@.len(),
                history_views(out@) == history_views(self.messages@).take(i as int),
            decreases self.messages@.len() - i,
        {
            let ghost before = history_views(out@);
            out.push(copy_messages(self.messages[i].as_slice()));
            proof {
                assert(history_views(out@) =~= before.push(
                    history_views(self.messages@)[i as int],
                ));
                assert(history_views(self.messages@).take(i + 1) =~= history_views(
                    self.messages@,
                ).take(i as int).push(history_views(self.messages@)[i as int]));
            }
            i = i + 1;
        }
        proof {
            assert(history_views(self.messages@).take(i as int) =~= history_views(self.messages@));
        }
        out
    }

    /// Gives the next outcome of the script, and takes note of the request. The
    /// count of the turns has to have room for one more.
    pub fn turn(&mut self, req: &TurnRequest<'_>) -> (r: Result<AssistantTurn, BackendError>)
        requires
            old(self).count() < u32::MAX,
        ensures
            turned(*old(self), *req, r, *final(self)),
    {
        let ghost before = *self;
        self.calls = self.calls + 1;
        self.systems.push(
            match req.system {
                Some(s) => Some(s.to_owned()),
                None => None,
            },
        );
        self.messages.push(copy_messages(req.messages));
        proof {
            assert(self.systems_view() =~= before.systems_view().push(
                match req.system {
                    Some(s) => Some(s@),
                    None => None,
                },
            ));
            assert(self.seen() =~= before.seen().push(model::message_views(req.messages@)));
        }
        if self.script.len() > 0 {
            let next = self.script.remove(0);
            proof {
                assert(self.left() =~= before.left().skip(1));
            }
            next
        } else {
            Err(BackendError::Terminal { kind: TerminalKind::Other, message: EXHAUSTED.to_owned() })
        }
    }
}

/// A scripted model gives its outcomes in the order of the script, each once, and
/// fails from there on; and it has taken note of every request, in order.
pub proof fn law_turns_follow_the_script(
    states: Seq<MockBackend>,
    requests: Seq<TurnRequest<'_>>,
    outcomes: Seq<Result<AssistantTurn, BackendError>>,
    k: int,
)
    requires
        states.len() == requests.len() + 1,
        outcomes.len() == requests.len(),
        forall|i: int|
            #![trigger requests[i]]
            0 <= i < requests.len() ==> turned(states[i], requests[i], outcomes[i], states[i + 1]),
        0 <= k < requests.len(),
    ensures
        k < states[0].left().len() ==> outcomes[k] == states[0].left()[k],
        k >= states[0].left().len() ==> outcomes[k] is Err,
        states[k + 1].count() == states[0].count() + k + 1,
        states[k + 1].seen().len() == states[0].seen().len() + k + 1,
        states[k + 1].seen().last() == model::message_views(requests[k].messages@),
    decreases k,
{
    lemma_left(states, requests, outcomes, k);
    assert(turned(states[k], requests[k], outcomes[k], states[k + 1]));
    if k > 0 {
        law_turns_follow_the_script(states, requests, outcomes, k - 1);
    }
}

/// What is left of the script after some turns.
proof fn lemma_left(
    states: Seq<MockBackend>,
    requests: Seq<TurnRequest<'_>>,
    outcomes: Seq<Result<AssistantTurn, BackendError>>,
    k: int,
)
    requires
        states.len() == requests.len() + 1,
        outcomes.len() == requests.len(),
        forall|i: int|
            #![trigger requests[i]]
            0 <= i < requests.len() ==> turned(states[i], requests[i], outcomes[i], states[i + 1]),
        0 <= k <= requests.len(),
    ensures
        states[k].left() == (if k <= states[0].left().len() {
            states[0].left().skip(k)
        } else {
            Seq::empty()
        }),
    decreases k,
{
    let all = states[0].left();
    if k == 0 {
        assert(all.skip(0) =~= all);
    } else {
        lemma_left(states, requests, outcomes, k - 1);
        assert(turned(states[k - 1], requests[k - 1], outcomes[k - 1], states[k]));
        if k <= all.len() {
            assert(all.skip(k - 1).skip(1) =~= all.skip(k));
        } else {
            assert(states[k].left() =~= Seq::empty());
        }
    }
}

} // verus!
