use lightsaber::command::{ActionCommand, ActionSource, PlayerAction};
use lightsaber::keyboard::parse_keyboard_action;

fn typed(action: PlayerAction, player_id: u8, now: i64) -> Option<ActionCommand> {
    Some(ActionCommand {
        player_id,
        action,
        confidence_millionths: 1_000_000,
        timestamp_micros: now,
        source: ActionSource::Keyboard,
    })
}

#[test]
fn every_keyboard_word_names_its_action() {
    for word in ["a", "left", "slash_left"] {
        assert_eq!(parse_keyboard_action(word, 0, 5), typed(PlayerAction::AttackLeft, 0, 5));
    }
    for word in ["d", "right", "slash_right"] {
        assert_eq!(parse_keyboard_action(word, 1, 6), typed(PlayerAction::AttackRight, 1, 6));
    }
    for word in ["w", "push", "force_push"] {
        assert_eq!(parse_keyboard_action(word, 0, 0), typed(PlayerAction::ForcePush, 0, 0));
    }
    for word in ["s", "guard", "guard_start"] {
        assert_eq!(parse_keyboard_action(word, 0, 0), typed(PlayerAction::GuardStart, 0, 0));
    }
    assert_eq!(parse_keyboard_action("guard_end", 2, -3), typed(PlayerAction::GuardEnd, 2, -3));
}

#[test]
fn keyboard_input_ignores_case_and_surrounding_space() {
    assert_eq!(parse_keyboard_action("  A\n", 0, 1), typed(PlayerAction::AttackLeft, 0, 1));
    assert_eq!(parse_keyboard_action("\tSlash_Right ", 0, 1), typed(PlayerAction::AttackRight, 0, 1));
    assert_eq!(parse_keyboard_action("\u{3000}GUARD_END\u{a0}", 0, 1), typed(PlayerAction::GuardEnd, 0, 1));
}

#[test]
fn unknown_keyboard_input_gives_nothing() {
    assert_eq!(parse_keyboard_action("", 0, 0), None);
    assert_eq!(parse_keyboard_action("   ", 0, 0), None);
    assert_eq!(parse_keyboard_action("jump", 0, 0), None);
    assert_eq!(parse_keyboard_action("a d", 0, 0), None);
    assert_eq!(parse_keyboard_action("ä", 0, 0), None);
    assert_eq!(parse_keyboard_action("guard end", 0, 0), None);
}
