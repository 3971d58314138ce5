use lightsaber::command::{ActionCommand, ActionSource, PlayerAction};
use lightsaber::protocol::{extract_number, extract_string, parse_action_command_json};

fn camera(player_id: u8, action: PlayerAction, confidence: i64, timestamp: i64) -> Option<ActionCommand> {
    Some(ActionCommand {
        player_id,
        action,
        confidence_millionths: confidence,
        timestamp_micros: timestamp,
        source: ActionSource::Camera,
    })
}

#[test]
fn bridge_message_reads_as_a_command() {
    let payload =
        r#"{"gesture": "slash_left", "confidence": 0.93, "timestamp": 1710000000.1, "playerId": 0}"#;
    assert_eq!(
        parse_action_command_json(payload),
        camera(0, PlayerAction::AttackLeft, 930_000, 1_710_000_000_100_000)
    );
}

#[test]
fn every_gesture_names_its_action() {
    let cases = [
        ("slash_left", PlayerAction::AttackLeft),
        ("slash_right", PlayerAction::AttackRight),
        ("force_push", PlayerAction::ForcePush),
        ("guard_start", PlayerAction::GuardStart),
        ("guard_end", PlayerAction::GuardEnd),
    ];
    for (gesture, action) in cases {
        let payload = format!("{{\"gesture\":\"{}\",\"playerId\":1}}", gesture);
        assert_eq!(parse_action_command_json(&payload), camera(1, action, 1_000_000, 0));
    }
}

#[test]
fn message_without_a_known_gesture_gives_nothing() {
    assert_eq!(parse_action_command_json(""), None);
    assert_eq!(parse_action_command_json(r#"{"confidence": 1}"#), None);
    assert_eq!(parse_action_command_json(r#"{"gesture": "jump"}"#), None);
    assert_eq!(parse_action_command_json(r#"{"gesture": "Slash_Left"}"#), None);
    assert_eq!(parse_action_command_json(r#"{"gesture": "slash_left}"#), None);
    assert_eq!(parse_action_command_json(r#"{"gesture": 3}"#), None);
}

#[test]
fn missing_numbers_take_their_defaults() {
    assert_eq!(
        parse_action_command_json(r#"{"gesture":"force_push"}"#),
        camera(0, PlayerAction::ForcePush, 1_000_000, 0)
    );
}

#[test]
fn unreadable_numbers_take_their_defaults() {
    let payload = r#"{"gesture":"guard_start","confidence": "high","timestamp": 1.2.3,"playerId": -}"#;
    assert_eq!(parse_action_command_json(payload), camera(0, PlayerAction::GuardStart, 1_000_000, 0));
}

#[test]
fn player_ids_are_cut_and_held_to_a_byte() {
    let read = |id: &str| {
        let payload = format!("{{\"gesture\":\"slash_right\",\"playerId\": {}}}", id);
        parse_action_command_json(&payload).unwrap().player_id
    };
    assert_eq!(read("1.7"), 1);
    assert_eq!(read("-3"), 0);
    assert_eq!(read("-0.5"), 0);
    assert_eq!(read("300"), 255);
    assert_eq!(read("255"), 255);
    assert_eq!(read(".9"), 0);
    assert_eq!(read("7."), 7);
    assert_eq!(read("00012"), 12);
}

#[test]
fn fractions_below_a_millionth_are_cut() {
    let payload = r#"{"gesture":"slash_right","confidence":0.1234569,"timestamp":-2.5}"#;
    assert_eq!(parse_action_command_json(payload), camera(0, PlayerAction::AttackRight, 123_456, -2_500_000));
}

#[test]
fn huge_numbers_are_held_to_i64() {
    let payload = r#"{"gesture":"slash_right","confidence":99999999999999999999,"timestamp":-99999999999999999999}"#;
    assert_eq!(parse_action_command_json(payload), camera(0, PlayerAction::AttackRight, i64::MAX, i64::MIN));
}

#[test]
fn string_field_reads_between_the_quotes() {
    assert_eq!(extract_string(r#"{"gesture": "slash_left"}"#, "gesture"), Some("slash_left".to_string()));
    assert_eq!(extract_string(r#"{"gesture":""}"#, "gesture"), Some(String::new()));
    assert_eq!(extract_string(r#"{"other": "x"}"#, "gesture"), None);
    assert_eq!(extract_string(r#"{"gesture": 5}"#, "gesture"), None);
    assert_eq!(extract_string(r#"{"gesture": 5, "b": "c"}"#, "gesture"), Some("b".to_string()));
    assert_eq!(extract_string(r#""k""é"ü"#, "k"), Some("é".to_string()));
}

#[test]
fn number_field_reads_after_the_colon() {
    let d = extract_number(r#"{"t":  -12.50}"#, "t").unwrap();
    assert!(d.negative);
    assert_eq!(d.whole, vec!['1', '2']);
    assert_eq!(d.fraction, vec!['5', '0']);
    assert_eq!(d.to_millionths(), -12_500_000);
    assert_eq!(d.to_u8_saturating(), 0);
    let d = extract_number(r#"{"t":3}"#, "t").unwrap();
    assert_eq!(d.to_u8_saturating(), 3);
    assert_eq!(d.to_millionths(), 3_000_000);
    assert!(extract_number(r#"{"t" 3}"#, "t").is_none());
    assert!(extract_number(r#"{"t": x3}"#, "t").is_none());
    assert!(extract_number(r#"{"s": 3}"#, "t").is_none());
    assert!(extract_number(r#"{"t": 3-}"#, "t").is_none());
}
