use klocki::action::Action;
use klocki::replay::ReplayData;

#[test]
fn replay_data_records_in_order() {
    let seed = [4u8; 32];
    let mut data = ReplayData::new(&seed);
    assert_eq!(data.seed, seed);
    assert_eq!(data.current_duration(), None);

    data.add(Action::MoveLeft, 100);
    data.add(Action::HardDrop, 250);

    assert_eq!(data.current_duration(), Some(100));
    assert_eq!(data.pop_action(), Action::MoveLeft);
    assert_eq!(data.current_duration(), Some(250));
    assert_eq!(data.pop_action(), Action::HardDrop);
    assert_eq!(data.current_duration(), None);
}

#[test]
fn exhausted_replay_hands_back_game_over() {
    let mut data = ReplayData::new(&[0u8; 32]);
    assert_eq!(data.pop_action(), Action::GameOver);
}
