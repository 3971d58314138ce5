use vstd::prelude::*;
use vstd::string::StrSliceExecFns;

use crate::command::{ActionCommand, ActionSource, PlayerAction};
use crate::text::{chars_of, find, find_in, leading_space, occurs_at, spells, trim_start};

verus! {

/// Confidence assumed when a message gives none, in millionths: full confidence.
pub const DEFAULT_CONFIDENCE: i64 = 1_000_000;

// ---------------------------------------------------------------- the message layout

/// A key as it is written in a message: between double quotes.
pub open spec fn quoted_key(key: Seq<char>) -> Seq<char> {
    seq!['"'] + key + seq!['"']
}

/// What follows the first occurrence of the quoted key, if the key occurs.
pub open spec fn after_key(payload: Seq<char>, key: Seq<char>) -> Option<Seq<char>> {
    match find(payload, quoted_key(key)) {
        Some(start) => Some(payload.subrange(start + quoted_key(key).len(), payload.len() as int)),
        None => None,
    }
}

/// The text of a string field: what stands between the first two double quotes
/// after the key.
pub open spec fn string_field(payload: Seq<char>, key: Seq<char>) -> Option<Seq<char>> {
    match after_key(payload, key) {
        None => None,
        Some(rest) => match find(rest, seq!['"']) {
            None => None,
            Some(q1) => {
                let inner = rest.subrange(q1 + 1, rest.len() as int);
                match find(inner, seq!['"']) {
                    None => None,
                    Some(q2) => Some(inner.subrange(0, q2)),
                }
            },
        },
    }
}

pub open spec fn is_numeric_char(c: char) -> bool {
    ('0' <= c <= '9') || c == '.' || c == '-'
}

/// Length of the run of digits, points and minus signs that opens `s`.
pub open spec fn numeric_run(s: Seq<char>) -> nat
    decreases s.len(),
{
    if s.len() > 0 && is_numeric_char(s[0]) {
        1 + numeric_run(s.drop_first())
    } else {
        0
    }
}

/// The text of a number field: after the first colon that follows the key, past
/// any white space, the run of digits, points and minus signs.
pub open spec fn number_text(payload: Seq<char>, key: Seq<char>) -> Option<Seq<char>> {
    match after_key(payload, key) {
        None => None,
        Some(rest) => match find(rest, seq![':']) {
            None => None,
            Some(c) => {
                let value = trim_start(rest.subrange(c + 1, rest.len() as int));
                Some(value.take(numeric_run(value) as int))
            },
        },
    }
}

// ---------------------------------------------------------------- decimal numbers

/// A decimal number as written: its sign, the digits before the point and those after it.
pub struct DecimalText {
    pub negative: bool,
    pub whole: Vec<char>,
    pub fraction: Vec<char>,
}

/// The mathematical picture of a `DecimalText`.
#[verifier::ext_equal]
pub struct Decimal {
    pub negative: bool,
    pub whole: Seq<char>,
    pub fraction: Seq<char>,
}

impl View for DecimalText {
    type V = Decimal;

    open spec fn view(&self) -> Decimal {
        Decimal { negative: self.negative, whole: self.whole@, fraction: self.fraction@ }
    }
}

pub open spec fn is_digit(c: char) -> bool {
    '0' <= c <= '9'
}

/// Digits, at most one point, and at least one digit: the unsigned numbers that
/// `f64::from_str` accepts among texts made of digits, points and minus signs.
pub open spec fn is_number_body(b: Seq<char>) -> bool {
    &&& forall|i: int| 0 <= i < b.len() ==> is_digit(#[trigger] b[i]) || b[i] == '.'
    &&& forall|i: int, j: int| 0 <= i < j < b.len() && #[trigger] b[i] == '.' ==> #[trigger] b[j] != '.'
    &&& exists|i: int| 0 <= i < b.len() && is_digit(#[trigger] b[i])
}

/// The number a text of digits, points and minus signs stands for, if it is one:
/// an optional leading minus sign, then a number body.
pub open spec fn decimal_of(t: Seq<char>) -> Option<Decimal> {
    let negative = t.len() > 0 && t[0] == '-';
    let body = if negative { t.drop_first() } else { t };
    if is_number_body(body) {
        match find(body, seq!['.']) {
            Some(d) => Some(
                Decimal {
                    negative,
                    whole: body.take(d),
                    fraction: body.subrange(d + 1, body.len() as int),
                },
            ),
            None => Some(Decimal { negative, whole: body, fraction: Seq::empty() }),
        }
    } else {
        None
    }
}

/// The number field under `key`, if the message has one that reads as a number.
pub open spec fn number_field(payload: Seq<char>, key: Seq<char>) -> Option<Decimal> {
    match number_text(payload, key) {
        Some(t) => decimal_of(t),
        None => None,
    }
}

/// Value of a string of decimal digits.
pub open spec fn digits_value(s: Seq<char>) -> nat
    decreases s.len(),
{
    if s.len() == 0 {
        0
    } else {
        10 * digits_value(s.drop_last()) + (s.last() as int - '0' as int) as nat
    }
}

/// The first six digits after the point, padded with zeros.
pub open spec fn six_places(f: Seq<char>) -> Seq<char> {
    if f.len() >= 6 {
        f.take(6)
    } else {
        f + Seq::new((6 - f.len()) as nat, |i: int| '0')
    }
}

/// The number in millionths, the part below a millionth cut off, held to the range of `i64`.
pub open spec fn millionths_of(d: Decimal) -> i64 {
    let m = digits_value(d.whole + six_places(d.fraction));
    if d.negative {
        if m > 0x8000_0000_0000_0000 { i64::MIN } else { (-m) as i64 }
    } else {
        if m > i64::MAX { i64::MAX } else { m as i64 }
    }
}

/// The number cut down to a whole number and held to the range of `u8`, as a
/// conversion to `u8` does it.
pub open spec fn u8_of(d: Decimal) -> u8 {
    if d.negative {
        0
    } else if digits_value(d.whole) > 255 {
        255
    } else {
        digits_value(d.whole) as u8
    }
}

// ---------------------------------------------------------------- commands

/// The action a camera gesture names.
pub open spec fn gesture_action(g: Seq<char>) -> PlayerAction {
    if g == "slash_left"@ {
        PlayerAction::AttackLeft
    } else if g == "slash_right"@ {
        PlayerAction::AttackRight
    } else if g == "force_push"@ {
        PlayerAction::ForcePush
    } else if g == "guard_start"@ {
        PlayerAction::GuardStart
    } else if g == "guard_end"@ {
        PlayerAction::GuardEnd
    } else {
        PlayerAction::NoAction
    }
}

/// The command a camera message stands for: its gesture must name an action;
/// a missing or unreadable player id counts as 0, confidence as full, and the
/// timestamp as zero.
pub open spec fn message_command(payload: Seq<char>) -> Option<ActionCommand> {
    match string_field(payload, "gesture"@) {
        None => None,
        Some(g) => {
            let action = gesture_action(g);
            if action is NoAction {
                None
            } else {
                Some(
                    ActionCommand {
                        player_id: match number_field(payload, "playerId"@) {
                            Some(d) => u8_of(d),
                            None => 0,
                        },
                        action,
                        confidence_millionths: match number_field(payload, "confidence"@) {
                            Some(d) => millionths_of(d),
                            None => DEFAULT_CONFIDENCE,
                        },
                        timestamp_micros: match number_field(payload, "timestamp"@) {
                            Some(d) => millionths_of(d),
                            None => 0,
                        },
                        source: ActionSource::Camera,
                    },
                )
            }
        },
    }
}

// ---------------------------------------------------------------- implementation

fn copy_range(v: &Vec<char>, from: usize, to: usize) -> (out: Vec<char>)
    requires
        from <= to <= v.len(),
    ensures
        out@ == v@.subrange(from as int, to as int),
{
    let mut out: Vec<char> = Vec::new();
    for i in from..to
        invariant
            from <= to <= v.len(),
            out@ == v@.subrange(from as int, i as int),
    {
        out.push(v[i]);
        assert(out@ =~= v@.subrange(from as int, i + 1));
    }
    out
}

fn one_char(c: char) -> (out: Vec<char>)
    ensures
        out@ == seq![c],
{
    let mut out: Vec<char> = Vec::new();
    out.push(c);
    assert(out@ =~= seq![c]);
    out
}

/// Position right after the first occurrence of the quoted key.
fn value_start(payload: &Vec<char>, key: &str) -> (r: Option<usize>)
    ensures
        match r {
            Some(i) => i <= payload.len() && after_key(payload@, key@) == Some(
                payload@.subrange(i as int, payload@.len() as int),
            ),
            None => after_key(payload@, key@) is None,
        },
{
    let mut pattern: Vec<char> = Vec::new();
    pattern.push('"');
    let key_chars = chars_of(key);
    for i in 0..key_chars.len()
        invariant
            pattern@ == seq!['"'] + key_chars@.take(i as int),
    {
        pattern.push(key_chars[i]);
        assert(pattern@ =~= seq!['"'] + key_chars@.take(i + 1));
    }
    pattern.push('"');
    assert(key_chars@.take(key_chars.len() as int) =~= key_chars@);
    assert(pattern@ =~= quoted_key(key@));
    match find_in(payload, &pattern, 0) {
        Some(start) => Some(start + pattern.len()),
        None => None,
    }
}

/// The text of the string field under `key`.
pub fn extract_string(payload: &str, key: &str) -> (r: Option<String>)
    ensures
        match r {
            Some(s) => string_field(payload@, key@) == Some(s@),
            None => string_field(payload@, key@) is None,
        },
{
    let chars = chars_of(payload);
    let start = match value_start(&chars, key) {
        Some(i) => i,
        None => return None,
    };
    let rest = copy_range(&chars, start, chars.len());
    let quote = one_char('"');
    let q1 = match find_in(&rest, &quote, 0) {
        Some(q) => q,
        None => return None,
    };
    let inner = copy_range(&rest, q1 + 1, rest.len());
    let q2 = match find_in(&inner, &quote, 0) {
        Some(q) => q,
        None => return None,
    };
    let from = start + q1 + 1;
    let to = from + q2;
    assert(chars@.subrange(from as int, to as int) =~= inner@.subrange(0, q2 as int));
    let text = payload.substring_char(from, to);
    Some(text.to_owned())
}

fn is_numeric(c: char) -> (b: bool)
    ensures
        b == is_numeric_char(c),
{
    ('0' <= c && c <= '9') || c == '.' || c == '-'
}

/// The run of digits, points and minus signs at the front of `v`.
fn numeric_prefix(v: &Vec<char>) -> (out: Vec<char>)
    ensures
        out@ == v@.take(numeric_run(v@) as int),
{
    let mut i: usize = 0;
    assert(v@.subrange(0, v@.len() as int) =~= v@);
    while i < v.len() && is_numeric(v[i])
        invariant
            i <= v.len(),
            numeric_run(v@) == i + numeric_run(v@.subrange(i as int, v@.len() as int)),
        decreases v.len() - i,
    {
        assert(v@.subrange(i as int, v@.len() as int).drop_first() =~= v@.subrange(
            i + 1,
            v@.len() as int,
        ));
        i = i + 1;
    }
    copy_range(v, 0, i)
}

/// Reads a text of digits, points and minus signs as a decimal number.
fn read_decimal(t: &Vec<char>) -> (r: Option<DecimalText>)
    ensures
        match r {
            Some(d) => decimal_of(t@) == Some(d@),
            None => decimal_of(t@) is None,
        },
{
    let negative = t.len() > 0 && t[0] == '-';
    let skip: usize = if negative { 1 } else { 0 };
    let body = copy_range(t, skip, t.len());
    assert(negative ==> body@ =~= t@.drop_first());
    assert(!negative ==> body@ =~= t@);
    assert(body@ == (if negative { t@.drop_first() } else { t@ }));
    let mut dot: Option<usize> = None;
    let mut seen_digit = false;
    for i in 0..body.len()
        invariant
            negative == (t@.len() > 0 && t@[0] == '-'),
            body@ == (if negative { t@.drop_first() } else { t@ }),
            forall|j: int| 0 <= j < i ==> is_digit(#[trigger] body@[j]) || body@[j] == '.',
            forall|j: int, k: int| 0 <= j < k < i && #[trigger] body@[j] == '.' ==> #[trigger] body@[k] != '.',
            seen_digit == exists|j: int| 0 <= j < i && is_digit(#[trigger] body@[j]),
            match dot {
                Some(d) => d < i && body@[d as int] == '.' && forall|j: int|
                    0 <= j < d ==> #[trigger] body@[j] != '.',
                None => forall|j: int| 0 <= j < i ==> #[trigger] body@[j] != '.',
            },
    {
        let c = body[i];
        if c == '.' {
            if dot.is_some() {
                assert(!is_number_body(body@));
                return None;
            }
            dot = Some(i);
        } else if '0' <= c && c <= '9' {
            seen_digit = true;
        } else {
            assert(!is_number_body(body@));
            return None;
        }
    }
    if !seen_digit {
        return None;
    }
    assert(is_number_body(body@));
    match dot {
        Some(d) => {
            proof {
                crate::text::lemma_find_from(body@, seq!['.'], 0);
                assert(body@.subrange(d as int, d + 1) =~= seq!['.']);
                assert(occurs_at(body@, seq!['.'], d as int));
                assert forall|j: int| 0 <= j < d implies !occurs_at(body@, seq!['.'], j) by {
                    if occurs_at(body@, seq!['.'], j) {
                        assert(body@.subrange(j, j + 1)[0] == '.');
                    }
                }
                match find(body@, seq!['.']) {
                    Some(f) => {
                        if f > d {
                        } else if f < d {
                            assert(body@.subrange(f, f + 1)[0] == '.');
                        }
                    },
                    None => {},
                }
            }
            let whole = copy_range(&body, 0, d);
            let fraction = copy_range(&body, d + 1, body.len());
            Some(DecimalText { negative, whole, fraction })
        },
        None => {
            proof {
                crate::text::lemma_find_from(body@, seq!['.'], 0);
                match find(body@, seq!['.']) {
                    Some(f) => {
                        assert(body@.subrange(f, f + 1)[0] == '.');
                    },
                    None => {},
                }
            }
            let whole = copy_range(&body, 0, body.len());
            assert(whole@ =~= body@);
            Some(DecimalText { negative, whole, fraction: Vec::new() })
        },
    }
}

/// The number field under `key`, if the message has one that reads as a number.
pub fn extract_number(payload: &str, key: &str) -> (r: Option<DecimalText>)
    ensures
        match r {
            Some(d) => number_field(payload@, key@) == Some(d@),
            None => number_field(payload@, key@) is None,
        },
{
    let chars = chars_of(payload);
    let start = match value_start(&chars, key) {
        Some(i) => i,
        None => return None,
    };
    let rest = copy_range(&chars, start, chars.len());
    let colon = one_char(':');
    let c = match find_in(&rest, &colon, 0) {
        Some(c) => c,
        None => return None,
    };
    let blank = leading_space(&rest, c + 1);
    let value = copy_range(&rest, c + 1 + blank, rest.len());
    let text = numeric_prefix(&value);
    read_decimal(&text)
}

/// Every character is a decimal digit.
pub open spec fn digits_only(s: Seq<char>) -> bool {
    forall|i: int| 0 <= i < s.len() ==> is_digit(#[trigger] s[i])
}

impl Decimal {
    /// Both digit strings hold digits only, as every number read from a message does.
    pub open spec fn is_well_formed(self) -> bool {
        digits_only(self.whole) && digits_only(self.fraction)
    }
}

/// A number read from text has digits only on both sides of its point.
pub proof fn lemma_decimal_digits(t: Seq<char>)
    ensures
        decimal_of(t) matches Some(d) ==> d.is_well_formed(),
{
    let negative = t.len() > 0 && t[0] == '-';
    let body = if negative { t.drop_first() } else { t };
    if is_number_body(body) {
        crate::text::lemma_find_from(body, seq!['.'], 0);
        match find(body, seq!['.']) {
            Some(d) => {
                assert(body.subrange(d, d + 1)[0] == '.');
                assert forall|i: int| 0 <= i < d implies is_digit(#[trigger] body.take(d)[i]) by {
                    if !is_digit(body[i]) {
                        assert(body[i] == '.');
                        assert(body.subrange(i, i + 1) =~= seq!['.']);
                    }
                }
                assert forall|i: int|
                    0 <= i < body.len() - d - 1 implies is_digit(
                    #[trigger] body.subrange(d + 1, body.len() as int)[i],
                ) by {
                    let k = d + 1 + i;
                    assert(body[k] != '.');
                }
            },
            None => {
                assert forall|i: int| 0 <= i < body.len() implies is_digit(#[trigger] body[i]) by {
                    if !is_digit(body[i]) {
                        assert(body.subrange(i, i + 1) =~= seq!['.']);
                        assert(occurs_at(body, seq!['.'], i));
                    }
                }
            },
        }
    }
}

fn digit_value(c: char) -> (v: u128)
    requires
        is_digit(c),
    ensures
        v == c as int - '0' as int,
{
    (c as u32 - '0' as u32) as u128
}

/// The value of a digit string, held at `cap`.
fn capped_value(s: &Vec<char>, cap: u128) -> (v: u128)
    requires
        digits_only(s@),
        cap <= 0x1_0000_0000_0000_0000,
    ensures
        v == (if digits_value(s@) > cap { cap as int } else { digits_value(s@) as int }),
{
    let mut acc: u128 = 0;
    for i in 0..s.len()
        invariant
            digits_only(s@),
            cap <= 0x1_0000_0000_0000_0000,
            acc == (if digits_value(s@.take(i as int)) > cap {
                cap as int
            } else {
                digits_value(s@.take(i as int)) as int
            }),
    {
        proof {
            assert(s@.take(i + 1).drop_last() =~= s@.take(i as int));
        }
        let d = digit_value(s[i]);
        let next = acc * 10 + d;
        acc = if next > cap { cap } else { next };
    }
    assert(s@.take(s.len() as int) =~= s@);
    acc
}

impl DecimalText {
    /// The number cut down to a whole number and held to the range of `u8`.
    pub fn to_u8_saturating(&self) -> (v: u8)
        requires
            self@.is_well_formed(),
        ensures
            v == u8_of(self@),
    {
        if self.negative {
            return 0;
        }
        let whole = capped_value(&self.whole, 256);
        if whole > 255 { 255 } else { whole as u8 }
    }

    /// The number in millionths, the part below a millionth cut off, held to the range of `i64`.
    pub fn to_millionths(&self) -> (v: i64)
        requires
            self@.is_well_formed(),
        ensures
            v == millionths_of(self@),
    {
        let mut digits: Vec<char> = Vec::new();
        for i in 0..self.whole.len()
            invariant
                digits@ == self.whole@.take(i as int),
        {
            digits.push(self.whole[i]);
            assert(digits@ =~= self.whole@.take(i + 1));
        }
        assert(self.whole@.take(self.whole.len() as int) =~= self.whole@);
        for k in 0..6usize
            invariant
                digits@ == self.whole@ + six_places(self.fraction@).take(k as int),
        {
            let c = if k < self.fraction.len() { self.fraction[k] } else { '0' };
            digits.push(c);
            assert(digits@ =~= self.whole@ + six_places(self.fraction@).take(k + 1));
        }
        assert(six_places(self.fraction@).take(6) =~= six_places(self.fraction@));
        assert(digits_only(digits@));
        let m = capped_value(&digits, 0x8000_0000_0000_0001);
        if self.negative {
            if m >= 0x8000_0000_0000_0000 {
                i64::MIN
            } else {
                -(m as i64)
            }
        } else {
            if m > 0x7fff_ffff_ffff_ffff { i64::MAX } else { m as i64 }
        }
    }
}

/// A number field, read as millionths, or `fallback` when there is none.
fn millionths_field(payload: &str, key: &str, fallback: i64) -> (v: i64)
    ensures
        v == (match number_field(payload@, key@) {
            Some(d) => millionths_of(d),
            None => fallback,
        }),
{
    match extract_number(payload, key) {
        Some(d) => {
            proof {
                lemma_decimal_digits(number_text(payload@, key@).unwrap());
            }
            d.to_millionths()
        },
        None => fallback,
    }
}

/// Reads one camera message, a flat JSON object such as
/// `{"gesture": "slash_left", "confidence": 0.93, "timestamp": 1710000000.1, "playerId": 0}`.
pub fn parse_action_command_json(payload: &str) -> (command: Option<ActionCommand>)
    ensures
        command == message_command(payload@),
{
    let gesture = match extract_string(payload, "gesture") {
        Some(g) => g,
        None => return None,
    };
    let g = chars_of(gesture.as_str());
    let action = if spells(&g, "slash_left") {
        PlayerAction::AttackLeft
    } else if spells(&g, "slash_right") {
        PlayerAction::AttackRight
    } else if spells(&g, "force_push") {
        PlayerAction::ForcePush
    } else if spells(&g, "guard_start") {
        PlayerAction::GuardStart
    } else if spells(&g, "guard_end") {
        PlayerAction::GuardEnd
    } else {
        PlayerAction::NoAction
    };
    if action == PlayerAction::NoAction {
        return None;
    }
    let confidence = millionths_field(payload, "confidence", DEFAULT_CONFIDENCE);
    let timestamp = millionths_field(payload, "timestamp", 0);
    let player_id = match extract_number(payload, "playerId") {
        Some(d) => {
            proof {
                lemma_decimal_digits(number_text(payload@, "playerId"@).unwrap());
            }
            d.to_u8_saturating()
        },
        None => 0,
    };
    Some(ActionCommand::new(player_id, action, confidence, timestamp, ActionSource::Camera))
}

} // verus!
