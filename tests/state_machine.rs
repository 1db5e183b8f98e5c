use triplicata::config::{Action, Bind, Config};
use triplicata::cube::Move;
use triplicata::state_machine::StateMachine;

fn bind(trigger: &[Move], actions: &[Action<char>]) -> Bind<char> {
    Bind {
        trigger: trigger.to_vec(),
        actions: actions.to_vec(),
    }
}

fn machine(binds: Vec<Bind<char>>) -> StateMachine<char> {
    StateMachine::new(Config { timeout: 100, binds })
}

#[test]
fn exact_match_fires_once() {
    let mut sm = machine(vec![bind(&[Move::U, Move::R], &[Action::Click('a')])]);
    assert_eq!(sm.push_move(Move::U, 10), vec![]);
    assert_eq!(sm.push_move(Move::R, 20), vec![Action::Click('a')]);
    assert!(sm.current_prefix().is_empty());
    assert_eq!(sm.tentative_bind(), None);
    assert_eq!(sm.on_timeout(500), vec![]);
}

#[test]
fn exact_match_then_timeout_emits_nothing_more() {
    let mut sm = machine(vec![bind(&[Move::U, Move::R], &[Action::Click('a')])]);
    let mut all = sm.push_move(Move::U, 0);
    all.extend(sm.push_move(Move::R, 50));
    all.extend(sm.on_timeout(150));
    assert_eq!(all, vec![Action::Click('a')]);
    assert!(sm.current_prefix().is_empty());
}

#[test]
fn ambiguous_prefix_waits_then_longer_fires() {
    let mut sm = machine(vec![
        bind(&[Move::U, Move::R], &[Action::Click('s')]),
        bind(&[Move::U, Move::R, Move::F], &[Action::Press('l'), Action::Release('l')]),
    ]);
    assert_eq!(sm.push_move(Move::U, 0), vec![]);
    assert_eq!(sm.push_move(Move::R, 10), vec![]);
    assert_eq!(sm.tentative_bind(), Some(0));
    assert_eq!(
        sm.push_move(Move::F, 20),
        vec![Action::Press('l'), Action::Release('l')]
    );
    assert!(sm.current_prefix().is_empty());
}

#[test]
fn ambiguous_prefix_times_out_to_shorter() {
    let mut sm = machine(vec![
        bind(&[Move::U, Move::R], &[Action::Click('s')]),
        bind(&[Move::U, Move::R, Move::F], &[Action::Click('l')]),
    ]);
    assert_eq!(sm.push_move(Move::U, 0), vec![]);
    assert_eq!(sm.push_move(Move::R, 10), vec![]);
    assert_eq!(sm.on_timeout(109), vec![]);
    assert_eq!(sm.on_timeout(110), vec![Action::Click('s')]);
    assert!(sm.current_prefix().is_empty());
    assert_eq!(sm.tentative_bind(), None);
}

#[test]
fn overshoot_keeps_the_new_move() {
    let mut sm = machine(vec![
        bind(&[Move::U], &[Action::Click('u')]),
        bind(&[Move::R, Move::F], &[Action::Click('r')]),
    ]);
    let mut out = sm.push_move(Move::U, 0);
    out.extend(sm.push_move(Move::R, 10));
    assert_eq!(out, vec![Action::Click('u')]);
    assert_eq!(sm.current_prefix(), &vec![Move::R]);
    assert_eq!(sm.push_move(Move::F, 20), vec![Action::Click('r')]);
}

#[test]
fn overshoot_fires_held_tentative() {
    let mut sm = machine(vec![
        bind(&[Move::U], &[Action::Click('u')]),
        bind(&[Move::U, Move::U], &[Action::Click('w')]),
        bind(&[Move::R, Move::F], &[Action::Click('r')]),
    ]);
    assert_eq!(sm.push_move(Move::U, 0), vec![]);
    assert_eq!(sm.tentative_bind(), Some(0));
    assert_eq!(sm.push_move(Move::R, 10), vec![Action::Click('u')]);
    assert_eq!(sm.current_prefix(), &vec![Move::R]);
    assert_eq!(sm.tentative_bind(), Some(2));
}

#[test]
fn identical_triggers_pick_first_bind() {
    let mut sm = machine(vec![
        bind(&[Move::B], &[Action::Click('1')]),
        bind(&[Move::B], &[Action::Click('2')]),
    ]);
    assert_eq!(sm.push_move(Move::B, 0), vec![]);
    assert_eq!(sm.tentative_bind(), Some(0));
    assert_eq!(sm.reset(), vec![Action::Click('1')]);
    assert!(sm.current_prefix().is_empty());
}

#[test]
fn lone_long_trigger_fires_when_complete() {
    let mut sm = machine(vec![bind(
        &[Move::U, Move::R, Move::F, Move::D],
        &[Action::Click('x')],
    )]);
    assert_eq!(sm.push_move(Move::U, 0), vec![]);
    assert_eq!(sm.push_move(Move::R, 10), vec![]);
    assert_eq!(sm.current_prefix(), &vec![Move::U, Move::R]);
    assert_eq!(sm.push_move(Move::F, 20), vec![]);
    assert_eq!(sm.push_move(Move::D, 30), vec![Action::Click('x')]);
    assert!(sm.current_prefix().is_empty());
}

#[test]
fn broken_long_trigger_restarts_without_firing() {
    let mut sm = machine(vec![bind(&[Move::U, Move::R, Move::F], &[Action::Click('x')])]);
    assert_eq!(sm.push_move(Move::U, 0), vec![]);
    assert_eq!(sm.push_move(Move::B, 10), vec![]);
    assert_eq!(sm.current_prefix(), &vec![Move::B]);
    assert_eq!(sm.tentative_bind(), None);
    assert_eq!(sm.push_move(Move::U, 20), vec![]);
    assert_eq!(sm.push_move(Move::R, 30), vec![]);
    assert_eq!(sm.push_move(Move::F, 40), vec![Action::Click('x')]);
}

#[test]
fn dead_prefix_restarts_from_new_move() {
    let mut sm = machine(vec![bind(&[Move::U, Move::R], &[Action::Delay(30)])]);
    assert_eq!(sm.push_move(Move::F, 0), vec![]);
    assert_eq!(sm.current_prefix(), &vec![Move::F]);
    assert_eq!(sm.push_move(Move::U, 10), vec![]);
    assert_eq!(sm.current_prefix(), &vec![Move::U]);
    assert_eq!(sm.push_move(Move::R, 20), vec![Action::Delay(30)]);
}

#[test]
fn timer_restarts_on_every_move() {
    let mut sm = machine(vec![
        bind(&[Move::U, Move::R], &[Action::Click('s')]),
        bind(&[Move::U, Move::R, Move::F], &[Action::Click('l')]),
        bind(&[Move::D], &[Action::Click('d')]),
    ]);
    assert_eq!(sm.push_move(Move::U, 0), vec![]);
    assert_eq!(sm.on_timeout(99), vec![]);
    assert_eq!(sm.push_move(Move::R, 99), vec![]);
    assert_eq!(sm.on_timeout(198), vec![]);
    assert_eq!(sm.deadline(), 199);
    assert_eq!(sm.current_prefix(), &vec![Move::U, Move::R]);
    assert_eq!(sm.on_timeout(199), vec![Action::Click('s')]);
    assert_eq!(sm.deadline(), 299);
}

#[test]
fn deadline_saturates() {
    let sm: StateMachine<char> = StateMachine::new(Config {
        timeout: u64::MAX,
        binds: vec![],
    });
    assert_eq!(sm.deadline(), u64::MAX);
}

#[test]
fn reset_without_tentative_emits_nothing() {
    let mut sm = machine(vec![
        bind(&[Move::U, Move::R], &[Action::Click('a')]),
        bind(&[Move::U, Move::F], &[Action::Click('b')]),
    ]);
    assert_eq!(sm.push_move(Move::U, 0), vec![]);
    assert_eq!(sm.tentative_bind(), None);
    assert_eq!(sm.reset(), vec![]);
    assert!(sm.current_prefix().is_empty());
}
