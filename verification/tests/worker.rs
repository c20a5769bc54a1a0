use snakerobots::worker::{
    execute_step, game_to_start, robot_codes_for_players, wait_step, ExecuteAction, ExecuteEvent, WaitAction, WaitEvent,
};

#[test]
fn codes_follow_robots() {
    let r = robot_codes_for_players(
        vec![(1, 10), (2, 20)],
        vec![(20, String::from("b")), (10, String::from("a"))],
    );
    assert_eq!(r, vec![(1, Some(String::from("a"))), (2, Some(String::from("b")))]);
}

#[test]
fn missing_robot_has_no_code() {
    let r = robot_codes_for_players(vec![(1, 10), (2, 30)], vec![(10, String::from("a"))]);
    assert_eq!(r, vec![(1, Some(String::from("a"))), (2, None)]);
}

#[test]
fn shared_robot_code_goes_to_first_player_only() {
    let r = robot_codes_for_players(vec![(1, 10), (2, 10)], vec![(10, String::from("a"))]);
    assert_eq!(r, vec![(1, Some(String::from("a"))), (2, None)]);
}

#[test]
fn starting_games() {
    let g = game_to_start(vec![(1, Some(String::from("a"))), (2, Some(String::from("b")))]).unwrap();
    assert_eq!(g, ((1, String::from("a")), (2, String::from("b"))));
    assert!(game_to_start(vec![(1, Some(String::from("a")))]).is_none());
    assert!(game_to_start(vec![(1, Some(String::from("a"))), (2, None)]).is_none());
    assert!(game_to_start(vec![(1, None), (2, Some(String::from("b")))]).is_none());
    assert!(game_to_start(vec![
        (1, Some(String::from("a"))),
        (2, Some(String::from("b"))),
        (3, Some(String::from("c")))
    ])
    .is_none());
}

#[test]
fn execute_steps_fill_free_slots() {
    assert_eq!(execute_step(0, 2, 0, ExecuteEvent::Ready), (0, 0, ExecuteAction::Take));
    assert_eq!(execute_step(2, 2, 0, ExecuteEvent::Ready), (2, 0, ExecuteAction::Finish));
    assert_eq!(execute_step(0, 2, 0, ExecuteEvent::Started), (1, 1, ExecuteAction::Take));
    assert_eq!(execute_step(1, 2, 1, ExecuteEvent::Started), (2, 2, ExecuteAction::Finish));
    assert_eq!(execute_step(1, 2, 1, ExecuteEvent::Skipped), (1, 1, ExecuteAction::Remove));
    assert_eq!(execute_step(1, 2, 1, ExecuteEvent::StartFailed), (1, 1, ExecuteAction::Take));
    assert_eq!(execute_step(0, 2, 0, ExecuteEvent::QueueEmpty), (0, 0, ExecuteAction::Finish));
}

#[test]
fn waiting_ends_in_the_right_action() {
    assert_eq!(wait_step(WaitEvent::Interval), WaitAction::NextRound);
    assert_eq!(wait_step(WaitEvent::GameFinished), WaitAction::HandleFinish);
    assert_eq!(wait_step(WaitEvent::Shutdown), WaitAction::CancelAndStop);
    assert_eq!(wait_step(WaitEvent::FinishChannelClosed), WaitAction::CancelAndStop);
}
