use uo_login::state::{Character, Monster, State, StateDelta};
use uo_login::ticks::current_ticks;
use uo_login::timer::{is_due, repeats, Callback, Timer};

fn delta(property: &str, delta: i32) -> StateDelta {
    StateDelta { property: String::from(property), delta }
}

#[test]
fn character_takes_the_hitpoint_deltas() {
    let mut bob = Character { hitpoints: 100, name: String::from("Bob") };
    bob.update_state(&vec![delta("hitpoints", -1), delta("anger", 10), delta("hitpoints", -4)]);
    assert_eq!(bob.hitpoints, 95);
    assert_eq!(bob.name, "Bob");
    bob.update_state(&Vec::new());
    assert_eq!(bob.hitpoints, 95);
}

#[test]
fn monster_takes_the_anger_deltas() {
    let mut dave = Monster { anger: 0, name: String::from("Dave") };
    dave.update_state(&vec![delta("anger", 10), delta("hitpoints", -1), delta("Anger", 5)]);
    assert_eq!(dave.anger, 10);
    assert_eq!(dave.name, "Dave");
}

#[test]
fn deltas_may_reach_the_limits() {
    let mut bob = Character { hitpoints: i32::MAX - 1, name: String::from("Bob") };
    bob.update_state(&vec![delta("hitpoints", 1), delta("hitpoints", i32::MIN)]);
    assert_eq!(bob.hitpoints, -1);
}

#[test]
fn timer_is_first_due_an_interval_from_now() {
    let state = Character { hitpoints: 100, name: String::from("Bob") };
    let timer = Timer::new(2, 1000, 5000, state, vec![delta("hitpoints", -1)]).unwrap();
    assert_eq!(timer.repetitions, 2);
    assert_eq!(timer.interval, 1000);
    assert_eq!(timer.next, 6000);
    assert_eq!(timer.next(), 6000);
    assert_eq!(timer.repetitions(), 2);
}

#[test]
fn callback_counts_down_and_moves_on() {
    let state = Monster { anger: 0, name: String::from("Dave") };
    let mut timer = Timer::new(2, 500, 0, state, vec![delta("anger", 10)]).unwrap();
    timer.callback();
    assert_eq!(timer.repetitions(), 1);
    assert_eq!(timer.next(), 1000);
    assert_eq!(timer.state.anger, 10);
    assert_eq!(timer.interval, 500);
    assert_eq!(timer.state_deltas.len(), 1);
    timer.callback();
    assert_eq!(timer.repetitions(), 0);
    assert_eq!(timer.next(), 1500);
    assert_eq!(timer.state.anger, 20);
}

#[test]
fn a_timer_is_due_once_its_time_has_passed() {
    let state = Character { hitpoints: 1, name: String::from("Bob") };
    let timer = Timer::new(1, 10, 90, state, Vec::new()).unwrap();
    assert!(!is_due(&timer, 99));
    assert!(!is_due(&timer, 100));
    assert!(is_due(&timer, 101));
}

#[test]
fn a_timer_repeats_while_repetitions_are_left() {
    let state = Character { hitpoints: 1, name: String::from("Bob") };
    let mut timer = Timer::new(2, 10, 0, state, Vec::new()).unwrap();
    assert!(repeats(&timer));
    timer.callback();
    assert!(repeats(&timer));
    timer.callback();
    assert!(!repeats(&timer));
    timer.callback();
    assert_eq!(timer.repetitions, -1);
    assert!(!repeats(&timer));
}

#[test]
fn timers_of_any_state_can_be_held_together() {
    let bob = Character { hitpoints: 5, name: String::from("Bob") };
    let dave = Monster { anger: 0, name: String::from("Dave") };
    let mut timers: Vec<Box<dyn Callback>> = vec![
        Box::new(Timer::new(1, 10, 0, bob, vec![delta("hitpoints", -5)]).unwrap()),
        Box::new(Timer::new(3, 20, 0, dave, vec![delta("anger", 1)]).unwrap()),
    ];
    for timer in timers.iter_mut() {
        assert!(timer.ready());
        timer.callback();
    }
    assert_eq!(timers[0].repetitions(), 0);
    assert_eq!(timers[1].repetitions(), 2);
    assert_eq!(timers[0].next(), 20);
    assert_eq!(timers[1].next(), 40);
    assert!(!repeats(timers[0].as_ref()));
    assert!(repeats(timers[1].as_ref()));
    assert!(is_due(timers[0].as_ref(), 21));
    assert!(!is_due(timers[1].as_ref(), 21));
}

#[test]
fn a_timer_that_would_overflow_is_not_ready() {
    let bob = Character { hitpoints: i32::MAX, name: String::from("Bob") };
    let deltas = vec![delta("hitpoints", 1), delta("hitpoints", -1)];
    let timer = Timer::new(1, 10, 0, bob, deltas).unwrap();
    assert!(!timer.ready());
    let bob = Character { hitpoints: 0, name: String::from("Bob") };
    let timer = Timer::new(isize::MIN, 10, 0, bob, Vec::new()).unwrap();
    assert!(!timer.ready());
    let bob = Character { hitpoints: 0, name: String::from("Bob") };
    let timer = Timer::new(isize::MIN + 1, 10, 0, bob, Vec::new()).unwrap();
    assert!(timer.ready());
    let dave = Monster { anger: 0, name: String::from("Dave") };
    let mut timer = Timer {
        repetitions: 1,
        interval: 6,
        next: i64::MAX - 5,
        state: dave,
        state_deltas: Vec::new(),
    };
    assert!(!timer.ready());
    timer.interval = 5;
    assert!(timer.ready());
    timer.callback();
    assert_eq!(timer.next, i64::MAX);
    assert!(dave_accepts());
}

fn dave_accepts() -> bool {
    let dave = Monster { anger: i32::MIN, name: String::from("Dave") };
    dave.accepts(&vec![delta("anger", -1)]) == false
        && dave.accepts(&vec![delta("hitpoints", -1)])
        && dave.accepts(&vec![delta("anger", i32::MAX), delta("anger", i32::MAX)])
}

#[test]
fn a_timer_past_the_end_of_the_clock_is_none() {
    let bob = Character { hitpoints: 0, name: String::from("Bob") };
    assert!(Timer::new(1, 1, i64::MAX, bob, Vec::new()).is_none());
    let bob = Character { hitpoints: 0, name: String::from("Bob") };
    assert!(Timer::new(1, -1, i64::MIN, bob, Vec::new()).is_none());
    let bob = Character { hitpoints: 0, name: String::from("Bob") };
    assert_eq!(Timer::new(1, 0, i64::MAX, bob, Vec::new()).unwrap().next, i64::MAX);
}

#[test]
fn the_clock_runs_on_from_2020() {
    let first = current_ticks();
    let second = current_ticks();
    assert!(first >= 1_577_836_800_000);
    assert!(second >= first - 1_000);
}

#[test]
fn a_timer_starting_now_is_due_an_interval_from_now() {
    let before = current_ticks();
    let dave = Monster { anger: 1, name: String::from("Dave") };
    let timer = Timer::starting_now(3, 500, dave, vec![delta("anger", 10)]).unwrap();
    let after = current_ticks();
    assert_eq!(timer.repetitions, 3);
    assert_eq!(timer.interval, 500);
    assert!(before - 1_000 + 500 <= timer.next && timer.next <= after + 1_000 + 500);
    assert_eq!(timer.state.anger, 1);
    assert_eq!(timer.state_deltas.len(), 1);
    let dave = Monster { anger: 1, name: String::from("Dave") };
    assert!(Timer::starting_now(3, i64::MAX, dave, Vec::new()).is_none());
}

#[test]
fn a_timer_that_is_due_at_once_can_always_be_had() {
    let before = current_ticks();
    let bob = Character { hitpoints: 7, name: String::from("Bob") };
    let timer = Timer::starting_now(isize::MAX, 0, bob, vec![delta("hitpoints", 1)]).unwrap();
    let after = current_ticks();
    assert_eq!(timer.repetitions, isize::MAX);
    assert_eq!(timer.interval, 0);
    assert!(before - 1_000 <= timer.next && timer.next <= after + 1_000);
    assert_eq!(timer.state.hitpoints, 7);
    assert_eq!(timer.state_deltas.len(), 1);
}
