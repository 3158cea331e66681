//! Asking two peers at once and taking the answer that comes first.

use serde_json::Value;
use vstd::prelude::*;
use vstd::string::*;

use crate::chat::Consultation;
use crate::errors::ConsultError;
use crate::json::json_views;
use crate::opinions::{is_second_opinion, second_opinion};
use crate::peers::EndpointId;
use crate::ranking::listed;

verus! {

/// Who has been asked, and how many of them have not reported yet.
#[derive(Debug)]
pub struct Race {
    pub contestants: Vec<(EndpointId, String)>,
    pub pending: usize,
}

/// What a [`Race`] stands for.
pub struct RaceView {
    pub contestants: Seq<(Seq<u8>, Seq<char>)>,
    pub pending: nat,
}

impl View for Race {
    type V = RaceView;

    open spec fn view(&self) -> RaceView {
        RaceView { contestants: listed(self.contestants@), pending: self.pending as nat }
    }
}

/// A report about one of those that have been asked.
#[derive(Debug)]
pub enum RaceEvent {
    /// The contestant with this index has answered.
    Answered { contestant: usize, text: String },
    /// A contestant gave no answer.
    Failed,
}

/// What a [`RaceEvent`] stands for.
pub enum EventView {
    Answered { contestant: nat, text: Seq<char> },
    Failed,
}

impl View for RaceEvent {
    type V = EventView;

    open spec fn view(&self) -> EventView {
        match *self {
            RaceEvent::Answered { contestant, text } => EventView::Answered {
                contestant: contestant as nat,
                text: text@,
            },
            RaceEvent::Failed => EventView::Failed,
        }
    }
}

/// What to do next.
#[derive(Debug)]
pub enum RaceAction {
    /// Wait for the next report.
    Wait,
    /// Stop whoever is still at work. The result is the first answer, with the peer
    /// and the model that gave it, or `None` where nobody answered.
    Finish(Option<(String, EndpointId, String)>),
}

/// What a [`RaceAction`] stands for.
pub enum ActionView {
    Wait,
    Finish(Option<(Seq<char>, Seq<u8>, Seq<char>)>),
}

impl View for RaceAction {
    type V = ActionView;

    open spec fn view(&self) -> ActionView {
        match *self {
            RaceAction::Wait => ActionView::Wait,
            RaceAction::Finish(Some((text, id, model))) => ActionView::Finish(
                Some((text@, id@, model@)),
            ),
            RaceAction::Finish(None) => ActionView::Finish(None),
        }
    }
}

/// Who takes part, in the order in which they are asked: the first two of the list,
/// the best of them last.
pub open spec fn contestants_of(peers: Seq<(Seq<u8>, Seq<char>)>) -> Seq<(Seq<u8>, Seq<char>)> {
    if peers.len() < 2 {
        peers
    } else {
        seq![peers[1], peers[0]]
    }
}

impl RaceView {
    /// Whether an event can happen: somebody has not reported yet, and whoever
    /// answers takes part.
    pub open spec fn allows(self, event: EventView) -> bool {
        &&& self.pending > 0
        &&& event matches EventView::Answered { contestant, text } ==> contestant
            < self.contestants.len()
    }

    /// The race after an event.
    pub open spec fn after(self, event: EventView) -> RaceView {
        RaceView {
            contestants: self.contestants,
            pending: match event {
                EventView::Answered { contestant, text } => 0,
                EventView::Failed => (self.pending - 1) as nat,
            },
        }
    }

    /// What to do after an event: an answer ends the race, and so does the failure of
    /// the last that was pending.
    pub open spec fn reaction(self, event: EventView) -> ActionView {
        match event {
            EventView::Answered { contestant, text } => ActionView::Finish(
                Some(
                    (
                        text,
                        self.contestants[contestant as int].0,
                        self.contestants[contestant as int].1,
                    ),
                ),
            ),
            EventView::Failed => if self.pending == 1 {
                ActionView::Finish(None)
            } else {
                ActionView::Wait
            },
        }
    }

    /// Where the race stands after a sequence of events. Nothing that happens after
    /// its end matters.
    pub open spec fn run(self, events: Seq<EventView>) -> ActionView
        decreases events.len(),
    {
        if events.len() == 0 {
            ActionView::Wait
        } else {
            match self.reaction(events[0]) {
                ActionView::Wait => self.after(events[0]).run(events.drop_first()),
                ActionView::Finish(result) => ActionView::Finish(result),
            }
        }
    }
}

/// The first answer among the events, with the peer and the model that gave it.
pub open spec fn first_answer(
    contestants: Seq<(Seq<u8>, Seq<char>)>,
    events: Seq<EventView>,
) -> Option<(Seq<char>, Seq<u8>, Seq<char>)>
    decreases events.len(),
{
    if events.len() == 0 {
        None
    } else {
        match events[0] {
            EventView::Answered { contestant, text } => Some(
                (text, contestants[contestant as int].0, contestants[contestant as int].1),
            ),
            EventView::Failed => first_answer(contestants, events.drop_first()),
        }
    }
}

/// Starts a race for a second opinion between the best two of the peers; a single
/// peer is asked alone. Each contestant has a consultation of its own; one that is an
/// error counts as a contestant that gives no answer. Without peers there is nothing to
/// wait for.
pub fn race_second_opinion(
    peers: &[(EndpointId, String)],
    messages: &[Value],
    timeout_secs: u64,
) -> (start: (Race, Vec<Result<Consultation, ConsultError>>, RaceAction))
    ensures
        start.0@.contestants == contestants_of(listed(peers@)),
        start.0@.pending == start.0@.contestants.len(),
        start.1@.len() == start.0@.contestants.len(),
        forall|i: int|
            0 <= i < start.1@.len() ==> is_second_opinion(
                start.0.contestants@[i].0,
                start.0.contestants@[i].1@,
                json_views(messages@),
                timeout_secs,
                #[trigger] start.1@[i],
            ),
        start.2@ == if peers@.len() == 0 {
            ActionView::Finish(None)
        } else {
            ActionView::Wait
        },
{
    let mut contestants: Vec<(EndpointId, String)> = Vec::new();
    if peers.len() >= 2 {
        contestants.push((peers[1].0, peers[1].1.clone()));
    }
    if peers.len() >= 1 {
        contestants.push((peers[0].0, peers[0].1.clone()));
    }
    assert(listed(contestants@) =~= contestants_of(listed(peers@)));
    let mut consultations: Vec<Result<Consultation, ConsultError>> = Vec::new();
    let mut i: usize = 0;
    while i < contestants.len()
        invariant
            i <= contestants@.len(),
            consultations@.len() == i,
            forall|k: int|
                0 <= k < i ==> is_second_opinion(
                    contestants@[k].0,
                    contestants@[k].1@,
                    json_views(messages@),
                    timeout_secs,
                    #[trigger] consultations@[k],
                ),
        decreases contestants.len() - i,
    {
        let contestant = &contestants[i];
        consultations.push(
            second_opinion(contestant.0, contestant.1.as_str(), messages, timeout_secs),
        );
        i += 1;
    }
    let pending = contestants.len();
    let action = if pending == 0 {
        RaceAction::Finish(None)
    } else {
        RaceAction::Wait
    };
    (Race { contestants, pending }, consultations, action)
}

impl Race {
    /// Takes a report, and says what to do next.
    pub fn on_event(&mut self, event: RaceEvent) -> (action: RaceAction)
        requires
            old(self)@.allows(event@),
        ensures
            final(self)@ == old(self)@.after(event@),
            action@ == old(self)@.reaction(event@),
            final(self).contestants == old(self).contestants,
            match event {
                RaceEvent::Answered { contestant, text } => final(self).pending == 0 && (
                action matches RaceAction::Finish(Some((told, id, model))) && told == text && id
                    == old(self).contestants@[contestant as int].0 && model@
                    == old(self).contestants@[contestant as int].1@),
                RaceEvent::Failed => final(self).pending == old(self).pending - 1 && action == (
                if old(self).pending == 1 {
                    RaceAction::Finish(None)
                } else {
                    RaceAction::Wait
                }),
            },
    {
        match event {
            RaceEvent::Answered { contestant, text } => {
                self.pending = 0;
                let winner = &self.contestants[contestant];
                RaceAction::Finish(Some((text, winner.0, winner.1.clone())))
            },
            RaceEvent::Failed => {
                self.pending = self.pending - 1;
                if self.pending == 0 {
                    RaceAction::Finish(None)
                } else {
                    RaceAction::Wait
                }
            },
        }
    }
}

/// Once everybody has reported, the race has ended with the first answer, and with
/// `None` exactly where all failed.
pub proof fn race_ends_with_first_answer(race: RaceView, events: Seq<EventView>)
    requires
        0 < race.pending == events.len(),
    ensures
        race.run(events) == ActionView::Finish(first_answer(race.contestants, events)),
        first_answer(race.contestants, events) is None <==> forall|i: int|
            0 <= i < events.len() ==> #[trigger] events[i] is Failed,
    decreases events.len(),
{
    if events[0] is Failed {
        let rest = events.drop_first();
        if rest.len() > 0 {
            race_ends_with_first_answer(race.after(events[0]), rest);
        }
        assert(forall|i: int| 0 <= i < rest.len() ==> #[trigger] rest[i] == events[i + 1]);
        if forall|i: int| 0 <= i < rest.len() ==> #[trigger] rest[i] is Failed {
            assert forall|i: int| 0 <= i < events.len() implies #[trigger] events[i] is Failed by {
                if i > 0 {
                    assert(rest[i - 1] == events[i]);
                }
            }
        }
    }
}

/// An answer ends the race at once, whoever has not reported yet.
pub proof fn answer_ends_the_race(
    race: RaceView,
    failures: Seq<EventView>,
    contestant: nat,
    text: Seq<char>,
    later: Seq<EventView>,
)
    requires
        failures.len() < race.pending,
        forall|i: int| 0 <= i < failures.len() ==> #[trigger] failures[i] is Failed,
        contestant < race.contestants.len(),
    ensures
        race.run(failures.push(EventView::Answered { contestant, text }) + later)
            == ActionView::Finish(
            Some(
                (
                    text,
                    race.contestants[contestant as int].0,
                    race.contestants[contestant as int].1,
                ),
            ),
        ),
    decreases failures.len(),
{
    let answer = EventView::Answered { contestant, text };
    let events = failures.push(answer) + later;
    if failures.len() == 0 {
        assert(events[0] == answer);
    } else {
        let rest = failures.drop_first();
        assert(events[0] == failures[0]);
        assert(events.drop_first() =~= rest.push(answer) + later);
        assert(forall|i: int| 0 <= i < rest.len() ==> #[trigger] rest[i] == failures[i + 1]);
        answer_ends_the_race(race.after(events[0]), rest, contestant, text, later);
    }
}

/// Never more than two peers are asked, they are the best two of the list, and a
/// single peer is asked alone.
pub proof fn best_two_take_part(peers: Seq<(Seq<u8>, Seq<char>)>)
    ensures
        contestants_of(peers).len() == if peers.len() < 2 { peers.len() } else { 2 },
        forall|i: int|
            0 <= i < peers.len() && i < 2 ==> contestants_of(peers).contains(#[trigger] peers[i]),
{
    if peers.len() >= 2 {
        assert(contestants_of(peers)[0] == peers[1]);
        assert(contestants_of(peers)[1] == peers[0]);
    } else if peers.len() == 1 {
        assert(contestants_of(peers)[0] == peers[0]);
    }
}

/// A race is between the first two peers of the list, of which the first is asked last; a
/// single peer is asked alone. All that are asked are pending, each has a consultation of
/// its own, and there is something to wait for exactly where there is a peer. A
/// consultation is the one that asking that peer alone makes.
pub proof fn race_is_between_the_first_two(
    peers: &[(EndpointId, String)],
    messages: &[Value],
    timeout_secs: u64,
    start: (Race, Vec<Result<Consultation, ConsultError>>, RaceAction),
)
    requires
        call_ensures(race_second_opinion, (peers, messages, timeout_secs), start),
    ensures
        ({
            let asked = start.0.contestants@;
            let count: nat = if peers@.len() < 2 { peers@.len() } else { 2 };
            &&& asked.len() == count
            &&& start.0.pending == count
            &&& start.1@.len() == count
            &&& count == 0 <==> start.2 == RaceAction::Finish(None)
            &&& count > 0 <==> start.2 == RaceAction::Wait
            &&& forall|i: int|
                0 <= i < count ==> (#[trigger] asked[i]).0.bytes@ == peers@[count - 1
                    - i].0.bytes@ && asked[i].1@ == peers@[count - 1 - i].1@
        }),
{
    let asked = start.0.contestants@;
    assert(listed(asked) == contestants_of(listed(peers@)));
    assert(listed(asked).len() == asked.len());
    assert(listed(peers@).len() == peers@.len());
    let count: nat = if peers@.len() < 2 { peers@.len() } else { 2 };
    assert forall|i: int| 0 <= i < count implies (#[trigger] asked[i]).0.bytes@ == peers@[count - 1
        - i].0.bytes@ && asked[i].1@ == peers@[count - 1 - i].1@ by {
        assert(listed(asked)[i] == contestants_of(listed(peers@))[i]);
        assert(listed(peers@)[count - 1 - i] == (
            peers@[count - 1 - i].0@,
            peers@[count - 1 - i].1@,
        ));
    }
}

/// Every contestant is asked what it would be asked alone, in the same words and with the
/// same time to answer, and none is where there is nothing to ask.
pub proof fn contestants_are_asked_as_they_would_be_alone(
    peers: &[(EndpointId, String)],
    messages: &[Value],
    timeout_secs: u64,
    start: (Race, Vec<Result<Consultation, ConsultError>>, RaceAction),
    i: int,
    model: &str,
    alone: Result<Consultation, ConsultError>,
)
    requires
        call_ensures(race_second_opinion, (peers, messages, timeout_secs), start),
        0 <= i < start.0.contestants@.len(),
        model@ == start.0.contestants@[i].1@,
        call_ensures(
            second_opinion,
            (start.0.contestants@[i].0, model, messages, timeout_secs),
            alone,
        ),
    ensures
        start.1@.len() == start.0.contestants@.len(),
        match alone {
            Ok(expected) => start.1@[i] matches Ok(found) && found.peer_id == expected.peer_id
                && found.timeout_secs == expected.timeout_secs && found.request@
                == expected.request@,
            Err(error) => start.1@[i] == Err::<Consultation, ConsultError>(error),
        },
{
    assert(listed(start.0.contestants@).len() == start.0.contestants@.len());
}

/// An answer ends a race with the text and with the peer and the model of whoever gave
/// it, however many are pending. A failure ends it with nothing where nobody else is
/// pending, and otherwise leaves one less to wait for. The contestants stay as they are.
pub proof fn reports_decide_the_race(race: RaceView, contestant: nat, text: Seq<char>)
    requires
        race.pending > 0,
        contestant < race.contestants.len(),
    ensures
        race.allows(EventView::Answered { contestant, text }),
        race.allows(EventView::Failed),
        race.reaction(EventView::Answered { contestant, text }) == ActionView::Finish(
            Some(
                (
                    text,
                    race.contestants[contestant as int].0,
                    race.contestants[contestant as int].1,
                ),
            ),
        ),
        race.after(EventView::Answered { contestant, text }).pending == 0,
        race.after(EventView::Answered { contestant, text }).contestants == race.contestants,
        race.pending == 1 ==> race.reaction(EventView::Failed) == ActionView::Finish(None),
        race.pending > 1 ==> race.reaction(EventView::Failed) == ActionView::Wait,
        race.after(EventView::Failed).pending == race.pending - 1,
        race.after(EventView::Failed).contestants == race.contestants,
{
}

/// As long as some have not reported, failures alone do not end a race; once all have
/// failed, it ends with nothing.
pub proof fn failures_end_the_race_when_nobody_is_left(race: RaceView, failures: Seq<EventView>)
    requires
        failures.len() <= race.pending,
        forall|i: int| 0 <= i < failures.len() ==> #[trigger] failures[i] is Failed,
    ensures
        failures.len() < race.pending ==> race.run(failures) == ActionView::Wait,
        0 < failures.len() == race.pending ==> race.run(failures) == ActionView::Finish(None),
    decreases failures.len(),
{
    if failures.len() > 0 {
        let rest = failures.drop_first();
        assert(failures[0] is Failed);
        assert(forall|i: int| 0 <= i < rest.len() ==> #[trigger] rest[i] == failures[i + 1]);
        failures_end_the_race_when_nobody_is_left(race.after(failures[0]), rest);
    }
}

} // verus!
