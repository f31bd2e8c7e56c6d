use weighted_shuffle::{
    Action, Event, Phase, QueueRefillController, ShuffleError, BATCH_SIZE, POLL_INTERVAL_MS,
    REQUEUE_DEPTH,
};

fn filled(ids: &[&str]) -> QueueRefillController {
    let mut c = QueueRefillController::with_defaults();
    for (i, id) in ids.iter().enumerate() {
        let a = c.step(Event::Pushed(id.to_string())).unwrap();
        if i + 1 < ids.len() {
            assert_eq!(a, Action::Push);
        } else {
            assert_eq!(a, Action::Poll);
        }
    }
    c
}

fn poll(c: &mut QueueRefillController, id: &str) -> Action {
    c.step(Event::Polled(Some(id.to_string()))).unwrap()
}

#[test]
fn defaults() {
    assert_eq!(BATCH_SIZE, 5);
    assert_eq!(REQUEUE_DEPTH, 3);
    assert_eq!(POLL_INTERVAL_MS, 3000);
    assert_eq!(QueueRefillController::with_defaults().phase(), Phase::Filling);
}

#[test]
fn batch_of_five_then_watch() {
    let c = filled(&["t1", "t2", "t3", "t4", "t5"]);
    assert_eq!(c.phase(), Phase::Watching);
}

#[test]
fn playing_one_of_last_three_refills() {
    for id in ["t3", "t4", "t5"] {
        let mut c = filled(&["t1", "t2", "t3", "t4", "t5"]);
        assert_eq!(poll(&mut c, id), Action::Push);
        assert_eq!(c.phase(), Phase::Filling);
        for k in 0..4 {
            assert_eq!(c.step(Event::Pushed(format!("n{}", k))).unwrap(), Action::Push);
        }
        assert_eq!(c.step(Event::Pushed("n4".to_string())).unwrap(), Action::Poll);
        assert_eq!(c.phase(), Phase::Watching);
    }
}

#[test]
fn playing_one_of_first_two_does_not_refill() {
    for id in ["t1", "t2", "elsewhere"] {
        let mut c = filled(&["t1", "t2", "t3", "t4", "t5"]);
        assert_eq!(poll(&mut c, id), Action::Wait { millis: 3000 });
        assert_eq!(c.phase(), Phase::Watching);
    }
}

#[test]
fn refill_window_uses_the_new_batch() {
    let mut c = filled(&["t1", "t2", "t3", "t4", "t5"]);
    assert_eq!(poll(&mut c, "t5"), Action::Push);
    for id in ["n1", "n2", "n3", "n4", "n5"] {
        c.step(Event::Pushed(id.to_string())).unwrap();
    }
    assert_eq!(poll(&mut c, "t5"), Action::Wait { millis: 3000 });
    assert_eq!(poll(&mut c, "n3"), Action::Push);
}

#[test]
fn nothing_playing_fails() {
    let mut c = filled(&["t1", "t2", "t3", "t4", "t5"]);
    assert_eq!(c.step(Event::Polled(None)).err(), Some(ShuffleError::PlaybackState));
    assert_eq!(c.phase(), Phase::Watching);
    assert_eq!(poll(&mut c, "t4"), Action::Push);
}

#[test]
fn custom_batch_and_window() {
    let mut c = QueueRefillController::new(2, 1, 10);
    assert_eq!(c.step(Event::Pushed("a".to_string())).unwrap(), Action::Push);
    assert_eq!(c.step(Event::Pushed("b".to_string())).unwrap(), Action::Poll);
    assert_eq!(poll(&mut c, "a"), Action::Wait { millis: 10 });
    assert_eq!(poll(&mut c, "b"), Action::Push);
}
