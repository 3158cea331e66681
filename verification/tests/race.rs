use consult::errors::ConsultError;
use consult::peers::EndpointId;
use consult::race::{race_second_opinion, Race, RaceAction, RaceEvent};
use serde_json::Value;

fn id(seed: u8) -> EndpointId {
    EndpointId { bytes: [seed; 32] }
}

fn peers(count: u8) -> Vec<(EndpointId, String)> {
    (1..=count)
        .map(|seed| (id(seed), format!("model-{seed}")))
        .collect()
}

fn question() -> Vec<Value> {
    vec![serde_json::from_str(r#"{"role":"user","content":"why?"}"#).unwrap()]
}

fn answered(contestant: usize, text: &str) -> RaceEvent {
    RaceEvent::Answered {
        contestant,
        text: text.to_string(),
    }
}

fn start(count: u8) -> Race {
    let (race, _, action) = race_second_opinion(&peers(count), &question(), 3);
    assert!(matches!(action, RaceAction::Wait));
    race
}

#[test]
fn without_peers_the_race_is_over() {
    let (race, consultations, action) = race_second_opinion(&[], &question(), 3);
    assert!(race.contestants.is_empty());
    assert!(consultations.is_empty());
    assert!(matches!(action, RaceAction::Finish(None)));
}

#[test]
fn single_peer_is_asked_alone() {
    let mut race = start(1);
    assert_eq!(race.contestants, peers(1));
    match race.on_event(answered(0, "because")) {
        RaceAction::Finish(Some((text, peer, model))) => {
            assert_eq!(text, "because");
            assert_eq!(peer, id(1));
            assert_eq!(model, "model-1");
        }
        _ => panic!("the race goes on"),
    }
    let mut race = start(1);
    assert!(matches!(
        race.on_event(RaceEvent::Failed),
        RaceAction::Finish(None)
    ));
}

#[test]
fn best_two_take_part_with_the_best_asked_last() {
    let race = start(4);
    let all = peers(4);
    assert_eq!(race.contestants, vec![all[1].clone(), all[0].clone()]);
    assert_eq!(race.pending, 2);
}

#[test]
fn each_contestant_has_a_consultation_of_its_own() {
    let (race, consultations, _) = race_second_opinion(&peers(3), &question(), 3);
    assert_eq!(consultations.len(), 2);
    for (contestant, consultation) in race.contestants.iter().zip(&consultations) {
        let consultation = consultation.as_ref().unwrap();
        assert_eq!(consultation.peer_id, contestant.0);
        assert_eq!(consultation.timeout_secs, 3);
        let request = String::from_utf8(consultation.request.clone()).unwrap();
        assert!(request.contains(&format!("\"model\":\"{}\"", contestant.1)));
        assert!(request.contains("why?"));
    }
    let (_, consultations, _) = race_second_opinion(&peers(2), &[], 3);
    assert!(consultations
        .iter()
        .all(|consultation| matches!(consultation, Err(ConsultError::NoUserMessage))));
}

#[test]
fn first_answer_wins() {
    let mut race = start(2);
    match race.on_event(answered(0, "quick")) {
        RaceAction::Finish(Some((text, peer, model))) => {
            assert_eq!(text, "quick");
            assert_eq!(peer, id(2));
            assert_eq!(model, "model-2");
        }
        _ => panic!("the race goes on"),
    }
    assert_eq!(race.pending, 0);
}

#[test]
fn failure_is_passed_over_while_another_is_pending() {
    let mut race = start(2);
    assert!(matches!(
        race.on_event(RaceEvent::Failed),
        RaceAction::Wait
    ));
    match race.on_event(answered(1, "late")) {
        RaceAction::Finish(Some((text, peer, model))) => {
            assert_eq!(text, "late");
            assert_eq!(peer, id(1));
            assert_eq!(model, "model-1");
        }
        _ => panic!("the race goes on"),
    }
}

#[test]
fn race_without_answers_ends_with_none() {
    let mut race = start(2);
    assert!(matches!(
        race.on_event(RaceEvent::Failed),
        RaceAction::Wait
    ));
    assert!(matches!(
        race.on_event(RaceEvent::Failed),
        RaceAction::Finish(None)
    ));
}
