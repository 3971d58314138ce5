# lightsaber

The combat core of a gesture-driven lightsaber game, with its rules proved in Verus.

One command model feeds three rulesets: solo combat against waves of drones, a
fitness mode that keeps workout metrics, and a local duel. Commands come from the
keyboard, from a camera bridge that sends small JSON messages over UDP, or from
the network.

## Layout

- `src/command.rs`, `src/combat.rs`, `src/fitness.rs`, `src/multiplayer.rs`,
  `src/game_mode.rs`: the data of a game.
- `src/rules.rs`: the rules as mathematics: what time and each command do to a
  game (`update_game`, `apply_to_game`) and the events a command reports.
- `src/simulation.rs`: `GameState`, whose `new`, `update` and `apply_command` are
  proved to follow those rules exactly, the checks `fits_command` and
  `fits_update` for their preconditions, and `report_step`, which says what a
  frame changed.
- `src/keyboard.rs`, `src/protocol.rs`, `src/text.rs`: reading keyboard words and
  camera messages, with contracts over the characters of the input.
- `src/laws.rs`: properties of the game as a whole (health never negative, scores
  never fall, cooldowns, waves, duel rounds, the drone invariant, keyboard input
  read without regard to case or white space).
- `app/`: the Bevy front end and the UDP receiver.

## Units

Everything the rules read is an integer. Times are in microseconds, a drone's
progress towards the player in billionths of the way (it breaches at
1_000_000_000 and moves 150 per microsecond), confidence in millionths, and the
fitness effort score in tenths of a point (held at the top of `u64`, as the
game clocks are). Confidence and timestamps of camera messages are cut below a
millionth when they are read. The front end converts its
floating-point frame times and positions at the edge.
