use livescore::game::{GameData, GameDuration, ScorePoint, ScoredRecord};
use livescore::host::{host_handle_packet, host_handshake, host_relay_score, HostStep};
use livescore::packet::{Either, PacketReader};
use livescore::protocol::{
    ClientboundHostPacket, ClientboundUserPacket, ServerboundHostPacket, ServerboundUserPacket,
};
use livescore::session_manager::{
    HostMessage, SessionManager, Team, UserMessage, ViewerMessage,
};
use livescore::user::{user_egress_packet, user_handle_message, user_score_allowed, user_session_info};
use livescore::viewer::viewer_snapshot;
use livescore::game::BuiltinGames;

fn point(name: &str, category: &str, points: i8) -> ScorePoint {
    ScorePoint { name: name.to_string(), category: category.to_string(), points }
}

fn two_point_game() -> GameData {
    GameData {
        duration: GameDuration { secs: 300 },
        score_points: vec![point("cube", "scoring", 2), point("park", "bonus", 1)],
    }
}

fn manager_with_session(id: u32) -> SessionManager {
    let mut manager = SessionManager::new();
    assert!(manager.new_session(id, two_point_game()));
    manager
}

#[test]
fn scored_record_constructors() {
    assert_eq!(ScoredRecord::zero(), ScoredRecord { scored: 0, undo: 0 });
    assert_eq!(ScoredRecord::one_scored(), ScoredRecord { scored: 1, undo: 0 });
    assert_eq!(ScoredRecord::one_undo(), ScoredRecord { scored: 0, undo: 1 });
    assert_eq!(ScoredRecord::zero().bump(false), ScoredRecord::one_scored());
    assert_eq!(ScoredRecord::zero().bump(true), ScoredRecord::one_undo());
}

#[test]
fn game_duration_from_minutes() {
    assert_eq!(GameDuration::from_min(5), GameDuration { secs: 300 });
    assert_eq!(GameDuration::from_min(0), GameDuration { secs: 0 });
}

#[test]
fn session_creation_is_idempotent_first_writer_wins() {
    let mut manager = SessionManager::new();
    assert!(manager.new_session(1, two_point_game()));
    let other = GameData { duration: GameDuration { secs: 1 }, score_points: vec![] };
    assert!(!manager.new_session(1, other));
    // The first writer's game data is kept.
    let session = manager.get_session(1).unwrap();
    assert_eq!(session.game_data.score_points.len(), 2);
    assert!(manager.get_session(2).is_none());
}

#[test]
fn close_session_removes_and_returns_the_session() {
    let mut manager = manager_with_session(5);
    let closed = manager.close_session(5);
    assert!(closed.is_some());
    assert!(manager.get_session(5).is_none());
    assert!(manager.close_session(5).is_none());
}

#[test]
fn start_twice_is_rejected_the_second_time() {
    let mut manager = manager_with_session(1);
    assert!(manager.start_game(1, 1000));
    assert!(!manager.start_game(1, 2000));
    let state = &manager.get_session(1).unwrap().game_state;
    assert_eq!(state.time_started, Some(1000));
}

#[test]
fn pause_twice_is_rejected_the_second_time() {
    let mut manager = manager_with_session(1);
    assert!(manager.pause_game(1));
    assert!(!manager.pause_game(1));
    assert!(manager.get_session(1).unwrap().game_state.paused);
}

#[test]
fn unpause_without_pause_is_rejected() {
    let mut manager = manager_with_session(1);
    assert!(!manager.unpause_game(1, 500));
    assert!(manager.pause_game(1));
    assert!(manager.unpause_game(1, 500));
    let state = &manager.get_session(1).unwrap().game_state;
    assert!(!state.paused);
    assert_eq!(state.time_paused, 500);
    assert!(!manager.unpause_game(1, 500));
}

#[test]
fn end_requires_running_clock_and_sets_ended() {
    let mut manager = manager_with_session(1);
    assert!(!manager.end_game(1));
    assert!(manager.start_game(1, 10));
    assert!(manager.end_game(1));
    let state = &manager.get_session(1).unwrap().game_state;
    assert!(state.ended);
    assert_eq!(state.time_started, None);
    assert!(!manager.end_game(1));
}

#[test]
fn transitions_on_unknown_session_are_rejected() {
    let mut manager = SessionManager::new();
    assert!(!manager.start_game(9, 0));
    assert!(!manager.end_game(9));
    assert!(!manager.pause_game(9));
    assert!(!manager.unpause_game(9, 1));
    assert!(!manager.score(9, Team::Blue, 0, false));
}

#[test]
fn score_with_out_of_range_index_is_rejected_whatever_the_clock() {
    let mut manager = manager_with_session(1);
    // Clock stopped: the registry still accepts a valid index.
    assert!(manager.score(1, Team::Blue, 1, false));
    // Out of range: rejected before and after start.
    assert!(!manager.score(1, Team::Blue, 2, false));
    assert!(manager.start_game(1, 1));
    assert!(!manager.score(1, Team::Red, 2, true));
    assert!(!manager.score(1, Team::Red, 255, false));
}

#[test]
fn score_increments_the_right_counter() {
    let mut manager = manager_with_session(1);
    assert!(manager.score(1, Team::Blue, 0, false));
    assert!(manager.score(1, Team::Blue, 0, false));
    assert!(manager.score(1, Team::Blue, 0, true));
    assert!(manager.score(1, Team::Red, 1, false));
    let state = &manager.get_session(1).unwrap().game_state;
    assert_eq!(state.blue_scored.get(&0), Some(&ScoredRecord { scored: 2, undo: 1 }));
    assert_eq!(state.blue_scored.get(&1), None);
    assert_eq!(state.red_scored.get(&1), Some(&ScoredRecord { scored: 1, undo: 0 }));
}

#[test]
fn serialized_concurrent_submissions_all_apply_exactly_once() {
    // N submissions across distinct team/index pairs, interleaved as the
    // registry's lock would serialize them: no update is lost.
    let mut manager = manager_with_session(1);
    let submissions = [
        (Team::Blue, 0u8, false),
        (Team::Red, 0u8, false),
        (Team::Blue, 1u8, false),
        (Team::Red, 1u8, true),
    ];
    let rounds = 25;
    for _ in 0..rounds {
        for (team, index, undo) in submissions {
            assert!(manager.score(1, team, index, undo));
        }
    }
    let state = &manager.get_session(1).unwrap().game_state;
    assert_eq!(state.blue_scored.get(&0).unwrap().scored, rounds);
    assert_eq!(state.red_scored.get(&0).unwrap().scored, rounds);
    assert_eq!(state.blue_scored.get(&1).unwrap().scored, rounds);
    assert_eq!(state.red_scored.get(&1).unwrap().undo, rounds);
    assert_eq!(state.red_scored.get(&1).unwrap().scored, 0);
}

#[test]
fn host_handshake_creates_session_and_replies_with_session_info() {
    let mut manager = SessionManager::new();
    let catalog = BuiltinGames { games: Vec::new() };
    let message =
        ServerboundHostPacket::GameData { game_type: Either::Right(two_point_game()) }.encode();
    let reply = host_handshake(&mut manager, 42, message, &catalog).unwrap();
    let mut reader = PacketReader::new(reply);
    match ClientboundHostPacket::read(&mut reader) {
        Some(ClientboundHostPacket::SessionInfo(42, data)) => {
            assert_eq!(data, two_point_game());
        }
        other => panic!("unexpected reply: {:?}", other),
    }
    assert!(manager.get_session(42).is_some());
}

#[test]
fn host_handshake_refuses_other_packets_and_garbage() {
    let mut manager = SessionManager::new();
    let catalog = BuiltinGames { games: Vec::new() };
    let start = ServerboundHostPacket::StartGame { time_started: 1 }.encode();
    assert!(host_handshake(&mut manager, 1, start, &catalog).is_none());
    assert!(host_handshake(&mut manager, 1, vec![0xff, 0x00], &catalog).is_none());
    assert!(manager.get_session(1).is_none());
}

#[test]
fn host_commands_drive_the_state_machine() {
    let mut manager = manager_with_session(3);
    let start = ServerboundHostPacket::StartGame { time_started: 1000 };
    assert_eq!(host_handle_packet(&mut manager, 3, start), HostStep::Proceed);
    assert_eq!(manager.get_session(3).unwrap().game_state.time_started, Some(1000));

    // A second start violates the transition rules and terminates.
    let again = ServerboundHostPacket::StartGame { time_started: 2000 };
    assert_eq!(host_handle_packet(&mut manager, 3, again), HostStep::Terminate);

    assert_eq!(host_handle_packet(&mut manager, 3, ServerboundHostPacket::PauseGame), HostStep::Proceed);
    assert_eq!(host_handle_packet(&mut manager, 3, ServerboundHostPacket::PauseGame), HostStep::Terminate);
    assert_eq!(
        host_handle_packet(&mut manager, 3, ServerboundHostPacket::UnpauseGame { time_paused: 7 }),
        HostStep::Proceed
    );
    assert_eq!(manager.get_session(3).unwrap().game_state.time_paused, 7);
    assert_eq!(host_handle_packet(&mut manager, 3, ServerboundHostPacket::EndGame), HostStep::Proceed);
    assert!(manager.get_session(3).unwrap().game_state.ended);
    // A mid-session game-selection packet is ignored.
    let reselect = ServerboundHostPacket::GameData { game_type: Either::Right(two_point_game()) };
    assert_eq!(host_handle_packet(&mut manager, 3, reselect), HostStep::Proceed);
}

#[test]
fn user_scoring_is_gated_on_clock_and_index() {
    let mut manager = manager_with_session(8);
    let score = ServerboundUserPacket::Score { score_type: 0, undo: false }.encode();
    // Clock stopped: rejected at the user orchestrator even with a valid index.
    assert!(!user_score_allowed(&manager, 8, 0));
    assert!(!user_handle_message(&manager, 8, Team::Blue, score.clone()));

    assert!(manager.start_game(8, 1000));
    assert!(user_score_allowed(&manager, 8, 0));
    assert!(user_handle_message(&manager, 8, Team::Blue, score));

    // Out-of-range index: rejected regardless of clock state.
    let bad = ServerboundUserPacket::Score { score_type: 2, undo: false }.encode();
    assert!(!user_score_allowed(&manager, 8, 2));
    assert!(!user_handle_message(&manager, 8, Team::Blue, bad));
    // Malformed message: rejected.
    assert!(!user_handle_message(&manager, 8, Team::Blue, vec![9, 9]));
    // Unknown session: rejected.
    let score2 = ServerboundUserPacket::Score { score_type: 0, undo: false }.encode();
    assert!(!user_handle_message(&manager, 99, Team::Blue, score2));
}

#[test]
fn end_to_end_scoring_scenario() {
    // Create a session with the two-entry game data; the host starts at
    // t=1000; user (team Blue) submits Score(index=0, undo=false).
    let mut manager = SessionManager::new();
    let catalog = BuiltinGames { games: Vec::new() };
    let handshake =
        ServerboundHostPacket::GameData { game_type: Either::Right(two_point_game()) }.encode();
    assert!(host_handshake(&mut manager, 7, handshake, &catalog).is_some());

    // A viewer subscribed before the score sees a zero snapshot.
    let (_, state_before) = viewer_snapshot(&manager, 7).unwrap();
    assert!(state_before.blue_scored.get(&0).is_none());
    let mut viewer_rx = manager.get_session(7).unwrap().viewer.sender.subscribe();

    // The user connects: session info carries the started flag and the data.
    let info = user_session_info(&manager, 7).unwrap();
    let mut reader = PacketReader::new(info);
    match ClientboundUserPacket::read(&mut reader) {
        Some(ClientboundUserPacket::SessionInfo(started, data)) => {
            assert!(!started);
            assert_eq!(data, two_point_game());
        }
        other => panic!("unexpected session info: {:?}", other),
    }

    // Host starts the game.
    let start = ServerboundHostPacket::StartGame { time_started: 1000 };
    assert_eq!(host_handle_packet(&mut manager, 7, start), HostStep::Proceed);
    assert_eq!(viewer_rx.try_recv(), Ok(ViewerMessage::GameStart(1000)));

    // The user's score command travels over the host channel.
    let mut host_rx = manager.get_session(7).unwrap().host.sender.subscribe();
    let score = ServerboundUserPacket::Score { score_type: 0, undo: false }.encode();
    assert!(user_handle_message(&manager, 7, Team::Blue, score));
    assert_eq!(host_rx.try_recv(), Ok(HostMessage::Score(Team::Blue, 0, false)));

    // The host's egress half applies it and echoes a score packet.
    let echoed = host_relay_score(&mut manager, 7, Team::Blue, 0, false).unwrap();
    let mut reader = PacketReader::new(echoed);
    assert_eq!(
        ClientboundHostPacket::read(&mut reader),
        Some(ClientboundHostPacket::Score(Team::Blue, 0, false))
    );

    // Registry state records the score; the viewer sees the event and a
    // fresh snapshot shows the counter at one.
    let state = &manager.get_session(7).unwrap().game_state;
    assert_eq!(state.blue_scored.get(&0), Some(&ScoredRecord { scored: 1, undo: 0 }));
    assert_eq!(viewer_rx.try_recv(), Ok(ViewerMessage::Score(Team::Blue, 0, false)));
    let (_, state_after) = viewer_snapshot(&manager, 7).unwrap();
    assert_eq!(state_after.blue_scored.get(&0), Some(&ScoredRecord { scored: 1, undo: 0 }));
}

#[test]
fn user_egress_translates_notices_and_ends_on_close() {
    let start = user_egress_packet(UserMessage::GameStart).unwrap();
    let mut reader = PacketReader::new(start);
    assert_eq!(ClientboundUserPacket::read(&mut reader), Some(ClientboundUserPacket::StartGame));
    let end = user_egress_packet(UserMessage::GameEnd).unwrap();
    let mut reader = PacketReader::new(end);
    assert_eq!(ClientboundUserPacket::read(&mut reader), Some(ClientboundUserPacket::EndGame));
    assert!(user_egress_packet(UserMessage::Close).is_none());
}

#[test]
fn user_session_info_rejects_unknown_session() {
    let manager = SessionManager::new();
    assert!(user_session_info(&manager, 1).is_none());
    assert!(viewer_snapshot(&manager, 1).is_none());
}

#[test]
fn teardown_notifies_user_subscribers_and_forgets_the_session() {
    let mut manager = manager_with_session(11);
    // Two user connections subscribe to the session's user channel.
    let mut user_rx1 = manager.get_session(11).unwrap().user.sender.subscribe();
    let mut user_rx2 = manager.get_session(11).unwrap().user.sender.subscribe();

    assert!(manager.close_session(11).is_some());

    // Both receive the close notice, which ends their egress halves and, by
    // the cancellation pairing, their ingress halves.
    assert_eq!(user_rx1.try_recv(), Ok(UserMessage::Close));
    assert_eq!(user_rx2.try_recv(), Ok(UserMessage::Close));
    assert!(user_egress_packet(UserMessage::Close).is_none());

    // A later viewer subscription to the same identifier is rejected.
    assert!(viewer_snapshot(&manager, 11).is_none());
    assert!(user_session_info(&manager, 11).is_none());
}

#[test]
fn host_start_and_end_notify_users() {
    let mut manager = manager_with_session(2);
    let mut user_rx = manager.get_session(2).unwrap().user.sender.subscribe();
    let start = ServerboundHostPacket::StartGame { time_started: 5 };
    assert_eq!(host_handle_packet(&mut manager, 2, start), HostStep::Proceed);
    assert_eq!(user_rx.try_recv(), Ok(UserMessage::GameStart));
    assert_eq!(host_handle_packet(&mut manager, 2, ServerboundHostPacket::EndGame), HostStep::Proceed);
    assert_eq!(user_rx.try_recv(), Ok(UserMessage::GameEnd));
}
