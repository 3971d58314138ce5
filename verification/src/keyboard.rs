use vstd::prelude::*;

use crate::command::{ActionCommand, ActionSource, PlayerAction};
use crate::text::{ascii_lowercase, chars_of, lowercased, spells, trim, trimmed};

verus! {

/// Confidence of a command typed on the keyboard, in millionths: full confidence.
pub const KEYBOARD_CONFIDENCE: i64 = 1_000_000;

/// The action a (trimmed, lower-case) keyboard word names.
pub open spec fn keyboard_word(w: Seq<char>) -> PlayerAction {
    if w == "a"@ || w == "left"@ || w == "slash_left"@ {
        PlayerAction::AttackLeft
    } else if w == "d"@ || w == "right"@ || w == "slash_right"@ {
        PlayerAction::AttackRight
    } else if w == "w"@ || w == "push"@ || w == "force_push"@ {
        PlayerAction::ForcePush
    } else if w == "s"@ || w == "guard_start"@ || w == "guard"@ {
        PlayerAction::GuardStart
    } else if w == "guard_end"@ {
        PlayerAction::GuardEnd
    } else {
        PlayerAction::NoAction
    }
}

/// The command that a line of keyboard input stands for: the line is trimmed and
/// compared without regard to ASCII case; a line that names no action gives none.
pub open spec fn keyboard_command(input: Seq<char>, player_id: u8, now_micros: i64) -> Option<
    ActionCommand,
> {
    let action = keyboard_word(ascii_lowercase(trim(input)));
    if action is NoAction {
        None
    } else {
        Some(
            ActionCommand {
                player_id,
                action,
                confidence_millionths: KEYBOARD_CONFIDENCE,
                timestamp_micros: now_micros,
                source: ActionSource::Keyboard,
            },
        )
    }
}

fn word_action(w: &Vec<char>) -> (action: PlayerAction)
    ensures
        action == keyboard_word(w@),
{
    if spells(w, "a") || spells(w, "left") || spells(w, "slash_left") {
        PlayerAction::AttackLeft
    } else if spells(w, "d") || spells(w, "right") || spells(w, "slash_right") {
        PlayerAction::AttackRight
    } else if spells(w, "w") || spells(w, "push") || spells(w, "force_push") {
        PlayerAction::ForcePush
    } else if spells(w, "s") || spells(w, "guard_start") || spells(w, "guard") {
        PlayerAction::GuardStart
    } else if spells(w, "guard_end") {
        PlayerAction::GuardEnd
    } else {
        PlayerAction::NoAction
    }
}

/// Reads one line of keyboard input as a command of `player_id` at time `now_micros`.
pub fn parse_keyboard_action(input: &str, player_id: u8, now_micros: i64) -> (command: Option<
    ActionCommand,
>)
    ensures
        command == keyboard_command(input@, player_id, now_micros),
{
    let chars = chars_of(input);
    let word = lowercased(&trimmed(&chars));
    let action = word_action(&word);
    if action == PlayerAction::NoAction {
        None
    } else {
        Some(
            ActionCommand::new(
                player_id,
                action,
                KEYBOARD_CONFIDENCE,
                now_micros,
                ActionSource::Keyboard,
            ),
        )
    }
}

} // verus!
