use livescore::game::{BuiltinGame, BuiltinGames, GameData, GameDuration, ScorePoint};
use livescore::packet::{Either, PacketReader};
use livescore::protocol::{
    from_bytes, into_bytes, ClientboundHostPacket, ClientboundUserPacket, ServerboundHostPacket,
    ServerboundUserPacket,
};
use livescore::session_manager::Team;

fn point(name: &str, category: &str, points: i8) -> ScorePoint {
    ScorePoint { name: name.to_string(), category: category.to_string(), points }
}

fn sample_game_data() -> GameData {
    GameData {
        duration: GameDuration { secs: 300 },
        score_points: vec![point("cube", "scoring", 2), point("park", "bonus", 1)],
    }
}

fn empty_catalog() -> BuiltinGames {
    BuiltinGames { games: Vec::new() }
}

fn catalog_of(data: GameData) -> BuiltinGames {
    BuiltinGames { games: vec![BuiltinGame { name: "sample".to_string(), data }] }
}

fn decode_cb_host(bytes: Vec<u8>) -> Option<ClientboundHostPacket> {
    let mut reader = PacketReader::new(bytes);
    ClientboundHostPacket::read(&mut reader)
}

fn decode_cb_user(bytes: Vec<u8>) -> Option<ClientboundUserPacket> {
    let mut reader = PacketReader::new(bytes);
    ClientboundUserPacket::read(&mut reader)
}

#[test]
fn cb_host_session_info_round_trips() {
    let packet = ClientboundHostPacket::SessionInfo(0xdeadbeef, sample_game_data());
    let bytes = into_bytes(packet);
    let back = decode_cb_host(bytes).unwrap();
    assert_eq!(back, ClientboundHostPacket::SessionInfo(0xdeadbeef, sample_game_data()));
}

#[test]
fn cb_host_score_round_trips() {
    for (team, index, undo) in
        [(Team::Blue, 0u8, false), (Team::Red, 255u8, true), (Team::Blue, 7u8, true)]
    {
        let bytes = into_bytes(ClientboundHostPacket::Score(team, index, undo));
        assert_eq!(decode_cb_host(bytes), Some(ClientboundHostPacket::Score(team, index, undo)));
    }
}

#[test]
fn cb_user_packets_round_trip() {
    let bytes = into_bytes(ClientboundUserPacket::SessionInfo(true, sample_game_data()));
    assert_eq!(
        decode_cb_user(bytes),
        Some(ClientboundUserPacket::SessionInfo(true, sample_game_data()))
    );
    let bytes = into_bytes(ClientboundUserPacket::StartGame);
    assert_eq!(decode_cb_user(bytes), Some(ClientboundUserPacket::StartGame));
    let bytes = into_bytes(ClientboundUserPacket::EndGame);
    assert_eq!(decode_cb_user(bytes), Some(ClientboundUserPacket::EndGame));
}

#[test]
fn sb_host_packets_round_trip() {
    let catalog = catalog_of(sample_game_data());
    let packets = vec![
        ServerboundHostPacket::StartGame { time_started: 0 },
        ServerboundHostPacket::StartGame { time_started: u64::MAX },
        ServerboundHostPacket::EndGame,
        ServerboundHostPacket::PauseGame,
        ServerboundHostPacket::UnpauseGame { time_paused: 12345 },
        ServerboundHostPacket::GameData { game_type: Either::Left(0) },
        ServerboundHostPacket::GameData { game_type: Either::Right(sample_game_data()) },
    ];
    for packet in packets {
        let expected = format!("{:?}", packet);
        let bytes = packet.encode();
        let back: ServerboundHostPacket = from_bytes(bytes, &catalog).unwrap();
        assert_eq!(format!("{:?}", back), expected);
    }
}

#[test]
fn sb_user_score_round_trips() {
    for (score_type, undo) in [(0u8, false), (255u8, true), (1u8, true)] {
        let bytes = ServerboundUserPacket::Score { score_type, undo }.encode();
        assert_eq!(
            ServerboundUserPacket::decode(bytes),
            Some(ServerboundUserPacket::Score { score_type, undo })
        );
    }
}

#[test]
fn empty_text_and_boundary_values_round_trip() {
    let data = GameData {
        duration: GameDuration { secs: 0 },
        score_points: vec![point("", "", i8::MIN), point("", "", i8::MAX)],
    };
    let bytes = into_bytes(ClientboundHostPacket::SessionInfo(0, data));
    let back = decode_cb_host(bytes).unwrap();
    match back {
        ClientboundHostPacket::SessionInfo(0, d) => {
            assert_eq!(d.score_points.len(), 2);
            assert_eq!(d.score_points[0].points, i8::MIN);
            assert_eq!(d.score_points[1].points, i8::MAX);
            assert_eq!(d.score_points[0].name, "");
        }
        other => panic!("unexpected packet: {:?}", other),
    }
}

#[test]
fn unknown_discriminants_fail() {
    let catalog = empty_catalog();
    assert_eq!(decode_cb_host(vec![2]), None);
    assert_eq!(decode_cb_user(vec![3]), None);
    assert!(from_bytes::<ServerboundHostPacket>(vec![5], &catalog).is_none());
    assert!(from_bytes::<ServerboundUserPacket>(vec![1], &catalog).is_none());
    // Unknown sum-type tag inside the game-selection packet.
    assert!(from_bytes::<ServerboundHostPacket>(vec![4, 2], &catalog).is_none());
    // Unknown team tag inside a score packet.
    assert_eq!(decode_cb_host(vec![1, 2, 0, 0]), None);
}

#[test]
fn empty_message_fails() {
    let catalog = empty_catalog();
    assert_eq!(decode_cb_host(Vec::new()), None);
    assert!(from_bytes::<ServerboundHostPacket>(Vec::new(), &catalog).is_none());
}

#[test]
fn out_of_range_builtin_reference_fails() {
    let catalog = catalog_of(sample_game_data());
    let bytes = ServerboundHostPacket::GameData { game_type: Either::Left(1) }.encode();
    assert!(from_bytes::<ServerboundHostPacket>(bytes, &catalog).is_none());
    let bytes = ServerboundHostPacket::GameData { game_type: Either::Left(0) }.encode();
    assert!(from_bytes::<ServerboundHostPacket>(bytes, &catalog).is_some());
}

#[test]
fn truncated_fixed_size_packets_always_fail() {
    let catalog = empty_catalog();
    let score = into_bytes(ClientboundHostPacket::Score(Team::Red, 9, true));
    for k in 0..score.len() {
        assert_eq!(decode_cb_host(score[..k].to_vec()), None);
    }
    let start = ServerboundHostPacket::StartGame { time_started: u64::MAX }.encode();
    for k in 0..start.len() {
        assert!(from_bytes::<ServerboundHostPacket>(start[..k].to_vec(), &catalog).is_none());
    }
    let user_score = ServerboundUserPacket::Score { score_type: 3, undo: false }.encode();
    for k in 0..user_score.len() {
        assert_eq!(ServerboundUserPacket::decode(user_score[..k].to_vec()), None);
    }
}

#[test]
fn truncated_session_info_fails_or_yields_strict_prefix() {
    let full = into_bytes(ClientboundHostPacket::SessionInfo(77, sample_game_data()));
    let mut prefix_decodes = 0;
    for k in 0..full.len() {
        match decode_cb_host(full[..k].to_vec()) {
            None => {}
            Some(ClientboundHostPacket::SessionInfo(id, data)) => {
                assert_eq!(id, 77);
                assert_eq!(data.duration, GameDuration { secs: 300 });
                assert!(data.score_points.len() < 2);
                let expected = sample_game_data();
                for (i, p) in data.score_points.iter().enumerate() {
                    assert_eq!(p, &expected.score_points[i]);
                }
                prefix_decodes += 1;
            }
            Some(other) => panic!("unexpected packet: {:?}", other),
        }
    }
    // Exactly the two entry boundaries (zero entries, one entry) decode.
    assert_eq!(prefix_decodes, 2);
}

#[test]
fn score_table_of_256_entries_decodes_and_257_fails() {
    let make = |n: usize| GameData {
        duration: GameDuration { secs: 60 },
        score_points: (0..n).map(|i| point("p", "c", (i % 100) as i8)).collect(),
    };
    let ok = into_bytes(ClientboundUserPacket::SessionInfo(false, make(256)));
    match decode_cb_user(ok) {
        Some(ClientboundUserPacket::SessionInfo(false, data)) => {
            assert_eq!(data.score_points.len(), 256);
        }
        other => panic!("unexpected: {:?}", other),
    }
    let too_many = into_bytes(ClientboundUserPacket::SessionInfo(false, make(257)));
    assert_eq!(decode_cb_user(too_many), None);
}

#[test]
fn trailing_bytes_after_fixed_packet_are_ignored() {
    let mut bytes = ServerboundHostPacket::EndGame.encode();
    bytes.push(0xee);
    let back: Option<ServerboundHostPacket> = from_bytes(bytes, &empty_catalog());
    assert_eq!(format!("{:?}", back.unwrap()), "EndGame");
}
