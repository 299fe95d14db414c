use webgame_server::client::{
    add_chat_message, get_tile_class, my_state, ChatLine, ChatLineData, CHAT_LOG_LINES,
};
use webgame_server::join_code::{
    format_join_code, generate_join_code, normalize_join_code, JOIN_CODE_CHARS, JOIN_CODE_LEN,
};
use webgame_server::protocol::{Character, GamePlayerState, PlayerInfo, PlayerRole, Tile};

#[test]
fn chat_line_text_and_render() {
    let line = ChatLine { nickname: "alice".to_string(), data: ChatLineData::Connected };
    assert_eq!(line.text(), "*connected*");
    assert_eq!(line.render(), "<alice> *connected*");
    let line = ChatLine { nickname: "bob".to_string(), data: ChatLineData::Disconnected };
    assert_eq!(line.render(), "<bob> *disconnected*");
    let line = ChatLine { nickname: "bob".to_string(), data: ChatLineData::Text("hi".to_string()) };
    assert_eq!(line.text(), "hi");
    assert_eq!(line.render(), "<bob> hi");
}

#[test]
fn tile_classes() {
    let mut t = Tile { codeword: "x".to_string(), character: Character::Unknown, spotted: false };
    assert_eq!(get_tile_class(&t), "tile unspotted");
    t.character = Character::RedAgent;
    assert_eq!(get_tile_class(&t), "tile red-agent");
    t.character = Character::BlueAgent;
    assert_eq!(get_tile_class(&t), "tile blue-agent");
    t.character = Character::Assassin;
    assert_eq!(get_tile_class(&t), "tile assassin");
    t.character = Character::Bystander;
    assert_eq!(get_tile_class(&t), "tile bystander");
}

#[test]
fn join_code_formatting() {
    assert_eq!(format_join_code("bcdfgh"), "BCD-FGH");
    assert_eq!(format_join_code("BCD-FGH"), "BCD-FGH");
    assert_eq!(format_join_code("b-c-d"), "BCD");
    assert_eq!(format_join_code("ab12"), "AB1-2");
    assert_eq!(format_join_code(""), "");
}

#[test]
fn join_code_normalizing() {
    assert_eq!(normalize_join_code("bcd-fgh"), "BCDFGH");
    assert_eq!(normalize_join_code("--"), "");
    assert_eq!(normalize_join_code("Ab1-z"), "AB1Z");
}

#[test]
fn generated_join_codes_use_the_alphabet() {
    for _ in 0..50 {
        let code = generate_join_code();
        assert_eq!(code.chars().count(), JOIN_CODE_LEN);
        assert!(code.chars().all(|c| JOIN_CODE_CHARS.contains(c)));
    }
}

fn roster() -> Vec<GamePlayerState> {
    vec![
        GamePlayerState {
            player: PlayerInfo { id: 1, nickname: "alice".to_string() },
            team: None,
            role: PlayerRole::Spectator,
            ready: false,
        },
        GamePlayerState {
            player: PlayerInfo { id: 2, nickname: "bob".to_string() },
            team: None,
            role: PlayerRole::Spectator,
            ready: true,
        },
    ]
}

#[test]
fn own_entry_lookup() {
    let players = roster();
    assert_eq!(my_state(&players, 2).unwrap().player.nickname, "bob");
    assert!(my_state(&players, 3).is_none());
}

#[test]
fn chat_log_keeps_the_last_lines() {
    let players = roster();
    let mut log: Vec<ChatLine> = Vec::new();
    add_chat_message(&mut log, &players, 1, ChatLineData::Connected);
    add_chat_message(&mut log, &players, 9, ChatLineData::Text("who".to_string()));
    assert_eq!(log.len(), 2);
    assert_eq!(log[0].render(), "<alice> *connected*");
    assert_eq!(log[1].render(), "<anonymous> who");
    for i in 0..30 {
        add_chat_message(&mut log, &players, 2, ChatLineData::Text(format!("{}", i)));
    }
    assert_eq!(log.len(), CHAT_LOG_LINES);
    assert_eq!(log[0].render(), "<bob> 10");
    assert_eq!(log[CHAT_LOG_LINES - 1].render(), "<bob> 29");
}
