//! The tap/hold discrimination engine.
//!
//! The engine keeps one record per physical key that is down, and compares
//! each key edge against the single action it currently expects. A tap that
//! matches completes when the key goes down. A hold that matches completes
//! once the key has been down for the threshold: either the periodic monitor
//! sees it while the key is still down, or the release does. The flags of the
//! record make sure that exactly one of them reports it.
//!
//! Time is handed in by the caller as milliseconds on a monotonic clock, so
//! the engine runs the same against a real clock and a simulated one.

use vstd::prelude::*;

use crate::combo::{ComboCommand, CommandView, InputType, KeyIdentifier};

verus! {

/// Default time, in milliseconds, that a key must stay down to count as held.
pub const DEFAULT_HOLD_THRESHOLD_MS: u64 = 300;

/// Default period, in milliseconds, of the hold monitor.
pub const MONITOR_INTERVAL_MS: u64 = 50;

/// The code, among unknown keys, of the synthetic key that stands for the
/// primary mouse button.
pub const MOUSE_LEFT_CODE: u32 = 1;

/// A physical key.
#[derive(Debug, Clone, Copy, PartialEq, Eq, Hash, Structural)]
pub enum Key {
    Alt,
    AltGr,
    Backspace,
    CapsLock,
    ControlLeft,
    ControlRight,
    Delete,
    DownArrow,
    End,
    Escape,
    F1,
    F10,
    F11,
    F12,
    F2,
    F3,
    F4,
    F5,
    F6,
    F7,
    F8,
    F9,
    Home,
    LeftArrow,
    MetaLeft,
    MetaRight,
    PageDown,
    PageUp,
    Return,
    RightArrow,
    ShiftLeft,
    ShiftRight,
    Space,
    Tab,
    UpArrow,
    PrintScreen,
    ScrollLock,
    Pause,
    NumLock,
    BackQuote,
    Num1,
    Num2,
    Num3,
    Num4,
    Num5,
    Num6,
    Num7,
    Num8,
    Num9,
    Num0,
    Minus,
    Equal,
    KeyQ,
    KeyW,
    KeyE,
    KeyR,
    KeyT,
    KeyY,
    KeyU,
    KeyI,
    KeyO,
    KeyP,
    LeftBracket,
    RightBracket,
    KeyA,
    KeyS,
    KeyD,
    KeyF,
    KeyG,
    KeyH,
    KeyJ,
    KeyK,
    KeyL,
    SemiColon,
    Quote,
    BackSlash,
    IntlBackslash,
    KeyZ,
    KeyX,
    KeyC,
    KeyV,
    KeyB,
    KeyN,
    KeyM,
    Comma,
    Dot,
    Slash,
    Insert,
    KpReturn,
    KpMinus,
    KpPlus,
    KpMultiply,
    KpDivide,
    Kp0,
    Kp1,
    Kp2,
    Kp3,
    Kp4,
    Kp5,
    Kp6,
    Kp7,
    Kp8,
    Kp9,
    KpDelete,
    Function,
    /// A key without a name of its own, by its platform code.
    Unknown(u32),
}

/// What the engine observed, for the consumer of its events.
#[derive(Debug, Clone, Copy, PartialEq, Eq, Structural)]
pub enum KeyEvent {
    /// A key went down without completing anything.
    KeyDown(Key),
    /// A key went up without completing anything.
    KeyUp(Key),
    /// The expected hold completed.
    HoldComplete(Key),
    /// The expected tap completed.
    TapComplete(Key),
    /// A pending hold has lasted the first count of milliseconds out of the
    /// second (the threshold); the fraction is below one.
    HoldProgress(Key, u64, u64),
}

/// A raw edge from a key source.
#[derive(Debug, Clone, Copy, PartialEq, Eq, Structural)]
pub enum InputEdge {
    KeyPress(Key),
    KeyRelease(Key),
    /// The primary mouse button went down.
    MouseLeftPress,
    /// The primary mouse button went up.
    MouseLeftRelease,
}

/// The bookkeeping of one key that is down.
#[derive(Debug, Clone, Copy, PartialEq, Eq, Structural)]
pub struct KeyState {
    /// When the key went down, in milliseconds.
    pub press_time: u64,
    /// Hold completion was already reported for this press.
    pub hold_triggered: bool,
    /// This press was resolved as a tap.
    pub consumed: bool,
}

/// A key that is down, with its bookkeeping.
#[derive(Debug, Clone, Copy, PartialEq, Eq, Structural)]
pub struct PressEntry {
    pub key: Key,
    pub state: KeyState,
}

// ---------------------------------------------------------------------------
// The model.

/// The action that a physical key stands for, if any.
pub open spec fn identifier_of(k: Key) -> Option<KeyIdentifier> {
    match k {
        Key::Num1 | Key::Kp1 => Some(KeyIdentifier::Number(1)),
        Key::Num2 | Key::Kp2 => Some(KeyIdentifier::Number(2)),
        Key::Num3 | Key::Kp3 => Some(KeyIdentifier::Number(3)),
        Key::Num4 | Key::Kp4 => Some(KeyIdentifier::Number(4)),
        Key::Num5 | Key::Kp5 => Some(KeyIdentifier::Number(5)),
        Key::Num6 | Key::Kp6 => Some(KeyIdentifier::Number(6)),
        Key::Num7 | Key::Kp7 => Some(KeyIdentifier::Number(7)),
        Key::Num8 | Key::Kp8 => Some(KeyIdentifier::Number(8)),
        Key::Num9 | Key::Kp9 => Some(KeyIdentifier::Number(9)),
        Key::KeyE => Some(KeyIdentifier::Chain),
        Key::Unknown(code) => if code == MOUSE_LEFT_CODE {
            Some(KeyIdentifier::HeavyAttack)
        } else {
            None
        },
        _ => None,
    }
}

/// The expected action of a command: its key, and whether it is a hold.
pub open spec fn expected_of(cmd: Option<ComboCommand>) -> Option<(KeyIdentifier, bool)> {
    match cmd {
        Some(c) => Some((c.key, c.input_type is Hold)),
        None => None,
    }
}

/// The key is the one the expected action asks for.
pub open spec fn matches_expected(expected: Option<(KeyIdentifier, bool)>, k: Key) -> bool {
    match expected {
        Some((id, _)) => identifier_of(k) == Some(id),
        None => false,
    }
}

/// The expected action is a hold.
pub open spec fn expects_hold(expected: Option<(KeyIdentifier, bool)>) -> bool {
    match expected {
        Some((_, hold)) => hold,
        None => false,
    }
}

/// Pressing the key completes the expected tap.
pub open spec fn is_tap_match(expected: Option<(KeyIdentifier, bool)>, k: Key) -> bool {
    matches_expected(expected, k) && !expects_hold(expected)
}

/// Holding the key works towards the expected hold.
pub open spec fn is_hold_match(expected: Option<(KeyIdentifier, bool)>, k: Key) -> bool {
    matches_expected(expected, k) && expects_hold(expected)
}

/// Milliseconds from `since` to `now`, and zero if the clock went back.
pub open spec fn elapsed(now: u64, since: u64) -> u64 {
    if now >= since {
        (now - since) as u64
    } else {
        0
    }
}

/// No key has two records.
pub open spec fn keys_unique(entries: Seq<PressEntry>) -> bool {
    forall|i: int, j: int|
        0 <= i < entries.len() && 0 <= j < entries.len() && i != j ==> entries[i].key
            != entries[j].key
}

/// Where the record of a key stands, if the key is down.
pub open spec fn position(entries: Seq<PressEntry>, k: Key) -> Option<int> {
    if exists|i: int| 0 <= i < entries.len() && entries[i].key == k {
        Some(choose|i: int| 0 <= i < entries.len() && entries[i].key == k)
    } else {
        None
    }
}

/// The record of a key, if the key is down.
pub open spec fn state_of(entries: Seq<PressEntry>, k: Key) -> Option<KeyState> {
    match position(entries, k) {
        Some(i) => Some(entries[i].state),
        None => None,
    }
}

/// The records after a press of `k` at `now`.
pub open spec fn press_entries(
    entries: Seq<PressEntry>,
    expected: Option<(KeyIdentifier, bool)>,
    k: Key,
    now: u64,
) -> Seq<PressEntry> {
    if position(entries, k) is Some {
        entries
    } else {
        entries.push(
            PressEntry {
                key: k,
                state: KeyState {
                    press_time: now,
                    hold_triggered: false,
                    consumed: is_tap_match(expected, k),
                },
            },
        )
    }
}

/// The event of a press of `k`: none for a key that is already down.
pub open spec fn press_event(
    entries: Seq<PressEntry>,
    expected: Option<(KeyIdentifier, bool)>,
    k: Key,
) -> Option<KeyEvent> {
    if position(entries, k) is Some {
        None
    } else if is_tap_match(expected, k) {
        Some(KeyEvent::TapComplete(k))
    } else {
        Some(KeyEvent::KeyDown(k))
    }
}

/// The records after a release of `k`.
pub open spec fn release_entries(entries: Seq<PressEntry>, k: Key) -> Seq<PressEntry> {
    match position(entries, k) {
        Some(i) => entries.remove(i),
        None => entries,
    }
}

/// The event of a release of `k` at `now`.
pub open spec fn release_event(
    entries: Seq<PressEntry>,
    expected: Option<(KeyIdentifier, bool)>,
    threshold: u64,
    k: Key,
    now: u64,
) -> KeyEvent {
    match position(entries, k) {
        Some(i) => {
            let st = entries[i].state;
            if !st.consumed && !st.hold_triggered && is_hold_match(expected, k) && elapsed(
                now,
                st.press_time,
            ) >= threshold {
                KeyEvent::HoldComplete(k)
            } else {
                KeyEvent::KeyUp(k)
            }
        },
        None => KeyEvent::KeyUp(k),
    }
}

/// The record is waiting for the expected hold to complete.
pub open spec fn hold_pending(e: PressEntry, expected: Option<(KeyIdentifier, bool)>) -> bool {
    !e.state.consumed && !e.state.hold_triggered && is_hold_match(expected, e.key)
}

/// The record's hold is pending and has lasted the threshold.
pub open spec fn hold_due(
    e: PressEntry,
    expected: Option<(KeyIdentifier, bool)>,
    threshold: u64,
    now: u64,
) -> bool {
    hold_pending(e, expected) && elapsed(now, e.state.press_time) >= threshold
}

/// What one monitor tick reports of one record.
pub open spec fn tick_event(
    e: PressEntry,
    expected: Option<(KeyIdentifier, bool)>,
    threshold: u64,
    now: u64,
) -> Seq<KeyEvent> {
    if !hold_pending(e, expected) {
        seq![]
    } else if elapsed(now, e.state.press_time) >= threshold {
        seq![KeyEvent::HoldComplete(e.key)]
    } else {
        seq![KeyEvent::HoldProgress(e.key, elapsed(now, e.state.press_time), threshold)]
    }
}

/// What one monitor tick reports, record by record.
pub open spec fn tick_events(
    entries: Seq<PressEntry>,
    expected: Option<(KeyIdentifier, bool)>,
    threshold: u64,
    now: u64,
) -> Seq<KeyEvent>
    decreases entries.len(),
{
    if entries.len() == 0 {
        seq![]
    } else {
        tick_events(entries.drop_last(), expected, threshold, now) + tick_event(
            entries.last(),
            expected,
            threshold,
            now,
        )
    }
}

/// A record after a monitor tick: flagged if its hold was due.
pub open spec fn tick_entry(
    e: PressEntry,
    expected: Option<(KeyIdentifier, bool)>,
    threshold: u64,
    now: u64,
) -> PressEntry {
    if hold_due(e, expected, threshold, now) {
        PressEntry {
            key: e.key,
            state: KeyState {
                press_time: e.state.press_time,
                hold_triggered: true,
                consumed: e.state.consumed,
            },
        }
    } else {
        e
    }
}

/// The records after a monitor tick.
pub open spec fn tick_entries(
    entries: Seq<PressEntry>,
    expected: Option<(KeyIdentifier, bool)>,
    threshold: u64,
    now: u64,
) -> Seq<PressEntry> {
    entries.map_values(|e: PressEntry| tick_entry(e, expected, threshold, now))
}

/// The record, if any, that is the first in the table whose hold is due.
pub open spec fn is_first_due(
    entries: Seq<PressEntry>,
    i: int,
    expected: Option<(KeyIdentifier, bool)>,
    threshold: u64,
    now: u64,
) -> bool {
    &&& 0 <= i < entries.len()
    &&& hold_due(entries[i], expected, threshold, now)
    &&& forall|j: int| 0 <= j < i ==> !hold_due(entries[j], expected, threshold, now)
}

/// Where the first record whose hold is due stands, if there is one.
pub open spec fn first_due(
    entries: Seq<PressEntry>,
    expected: Option<(KeyIdentifier, bool)>,
    threshold: u64,
    now: u64,
) -> Option<int> {
    if exists|i: int| is_first_due(entries, i, expected, threshold, now) {
        Some(choose|i: int| is_first_due(entries, i, expected, threshold, now))
    } else {
        None
    }
}

/// The synthetic key that stands for the primary mouse button.
pub open spec fn mouse_key() -> Key {
    Key::Unknown(MOUSE_LEFT_CODE)
}

/// An Alt key: its edges are passed on raw and never discriminated.
pub open spec fn is_alt(k: Key) -> bool {
    k == Key::Alt || k == Key::AltGr
}

/// The events that one raw edge sends to the consumer. A keyboard edge is
/// always passed on as `KeyDown` or `KeyUp`, followed by the completion it
/// brings, if any; a mouse edge sends what the engine makes of it.
pub open spec fn edge_events(
    entries: Seq<PressEntry>,
    expected: Option<(KeyIdentifier, bool)>,
    threshold: u64,
    edge: InputEdge,
    now: u64,
) -> Seq<KeyEvent> {
    match edge {
        InputEdge::KeyPress(k) => if !is_alt(k) && press_event(entries, expected, k) == Some(
            KeyEvent::TapComplete(k),
        ) {
            seq![KeyEvent::KeyDown(k), KeyEvent::TapComplete(k)]
        } else {
            seq![KeyEvent::KeyDown(k)]
        },
        InputEdge::KeyRelease(k) => if !is_alt(k) && release_event(
            entries,
            expected,
            threshold,
            k,
            now,
        ) == KeyEvent::HoldComplete(k) {
            seq![KeyEvent::KeyUp(k), KeyEvent::HoldComplete(k)]
        } else {
            seq![KeyEvent::KeyUp(k)]
        },
        InputEdge::MouseLeftPress => match press_event(entries, expected, mouse_key()) {
            Some(e) => seq![e],
            None => seq![],
        },
        InputEdge::MouseLeftRelease => seq![
            release_event(entries, expected, threshold, mouse_key(), now),
        ],
    }
}

/// The records after one raw edge.
pub open spec fn edge_entries(
    entries: Seq<PressEntry>,
    expected: Option<(KeyIdentifier, bool)>,
    edge: InputEdge,
    now: u64,
) -> Seq<PressEntry> {
    match edge {
        InputEdge::KeyPress(k) => if is_alt(k) {
            entries
        } else {
            press_entries(entries, expected, k, now)
        },
        InputEdge::KeyRelease(k) => if is_alt(k) {
            entries
        } else {
            release_entries(entries, k)
        },
        InputEdge::MouseLeftPress => press_entries(entries, expected, mouse_key(), now),
        InputEdge::MouseLeftRelease => release_entries(entries, mouse_key()),
    }
}

/// In a table with unique keys, a record stands where its key is found.
pub proof fn lemma_position_at(entries: Seq<PressEntry>, i: int)
    requires
        keys_unique(entries),
        0 <= i < entries.len(),
    ensures
        position(entries, entries[i].key) == Some(i),
{
    let k = entries[i].key;
    assert(exists|j: int| 0 <= j < entries.len() && entries[j].key == k);
    let c = choose|j: int| 0 <= j < entries.len() && entries[j].key == k;
    assert(entries[c].key == entries[i].key);
}


/// Taking a record out keeps the keys unique.
pub proof fn lemma_unique_remove(entries: Seq<PressEntry>, i: int)
    requires
        keys_unique(entries),
        0 <= i < entries.len(),
    ensures
        keys_unique(entries.remove(i)),
{
    let r = entries.remove(i);
    assert forall|a: int, b: int|
        0 <= a < r.len() && 0 <= b < r.len() && a != b implies r[a].key != r[b].key by {
        let oa = if a < i { a } else { a + 1 };
        let ob = if b < i { b } else { b + 1 };
        assert(r[a] == entries[oa]);
        assert(r[b] == entries[ob]);
    }
}

/// Adding the record of a key that is not down keeps the keys unique.
pub proof fn lemma_unique_push(entries: Seq<PressEntry>, e: PressEntry)
    requires
        keys_unique(entries),
        position(entries, e.key) is None,
    ensures
        keys_unique(entries.push(e)),
{
    let r = entries.push(e);
    assert forall|a: int, b: int|
        0 <= a < r.len() && 0 <= b < r.len() && a != b implies r[a].key != r[b].key by {
        if a < entries.len() && b < entries.len() {
            assert(r[a] == entries[a]);
            assert(r[b] == entries[b]);
        } else if a < entries.len() {
            assert(r[a] == entries[a]);
        } else {
            assert(r[b] == entries[b]);
        }
    }
}

/// A monitor tick keeps every record's key where it was.
pub proof fn lemma_unique_tick(
    entries: Seq<PressEntry>,
    expected: Option<(KeyIdentifier, bool)>,
    threshold: u64,
    now: u64,
)
    requires
        keys_unique(entries),
    ensures
        keys_unique(tick_entries(entries, expected, threshold, now)),
{
    let r = tick_entries(entries, expected, threshold, now);
    assert forall|a: int, b: int|
        0 <= a < r.len() && 0 <= b < r.len() && a != b implies r[a].key != r[b].key by {
        assert(r[a].key == entries[a].key);
        assert(r[b].key == entries[b].key);
    }
}

// ---------------------------------------------------------------------------
// The engine.

/// The discrimination engine: the table of keys that are down, the action
/// expected now, and the hold threshold.
pub struct InputHandler {
    key_states: Vec<PressEntry>,
    current_command: Option<ComboCommand>,
    hold_threshold: u64,
}

impl InputHandler {
    /// The records of the keys that are down, in the order they went down.
    pub closed spec fn entries(&self) -> Seq<PressEntry> {
        self.key_states@
    }

    /// The command the engine waits for.
    pub closed spec fn command(&self) -> Option<ComboCommand> {
        self.current_command
    }

    /// The hold threshold, in milliseconds.
    pub closed spec fn threshold(&self) -> u64 {
        self.hold_threshold
    }

    /// The expected action: the key of the command, and whether it is a hold.
    pub open spec fn expected(&self) -> Option<(KeyIdentifier, bool)> {
        expected_of(self.command())
    }

    /// At most one record per key.
    pub open spec fn wf(&self) -> bool {
        keys_unique(self.entries())
    }

    /// An engine with no key down, nothing expected and the default threshold.
    pub fn new() -> (r: Self)
        ensures
            r.wf(),
            r.entries() == Seq::<PressEntry>::empty(),
            r.command() is None,
            r.threshold() == DEFAULT_HOLD_THRESHOLD_MS,
    {
        InputHandler {
            key_states: Vec::new(),
            current_command: None,
            hold_threshold: DEFAULT_HOLD_THRESHOLD_MS,
        }
    }

    /// The same engine with another hold threshold.
    pub fn with_hold_threshold(self, threshold_ms: u64) -> (r: Self)
        ensures
            r.entries() == self.entries(),
            r.command() == self.command(),
            r.threshold() == threshold_ms,
            self.wf() ==> r.wf(),
    {
        let mut h = self;
        h.hold_threshold = threshold_ms;
        h
    }

    /// The hold threshold, in milliseconds.
    pub fn hold_threshold(&self) -> (r: u64)
        ensures
            r == self.threshold(),
    {
        self.hold_threshold
    }

    /// Replaces the expected command.
    pub fn set_current_command(&mut self, command: Option<ComboCommand>)
        ensures
            final(self).command() == command,
            final(self).entries() == old(self).entries(),
            final(self).threshold() == old(self).threshold(),
            old(self).wf() ==> final(self).wf(),
    {
        self.current_command = command;
    }

    /// A copy of the expected command.
    pub fn get_current_command(&self) -> (r: Option<ComboCommand>)
        ensures
            r is Some <==> self.command() is Some,
            r is Some ==> r->0@ == self.command()->0@,
    {
        match &self.current_command {
            Some(c) => Some(c.duplicate()),
            None => None,
        }
    }

    /// The action a physical key stands for: the digit keys of both rows
    /// their slot, `E` the chain attack, the mouse sentinel the heavy attack.
    pub fn key_to_identifier(key: &Key) -> (r: Option<KeyIdentifier>)
        ensures
            r == identifier_of(*key),
    {
        match key {
            Key::Num1 | Key::Kp1 => Some(KeyIdentifier::Number(1)),
            Key::Num2 | Key::Kp2 => Some(KeyIdentifier::Number(2)),
            Key::Num3 | Key::Kp3 => Some(KeyIdentifier::Number(3)),
            Key::Num4 | Key::Kp4 => Some(KeyIdentifier::Number(4)),
            Key::Num5 | Key::Kp5 => Some(KeyIdentifier::Number(5)),
            Key::Num6 | Key::Kp6 => Some(KeyIdentifier::Number(6)),
            Key::Num7 | Key::Kp7 => Some(KeyIdentifier::Number(7)),
            Key::Num8 | Key::Kp8 => Some(KeyIdentifier::Number(8)),
            Key::Num9 | Key::Kp9 => Some(KeyIdentifier::Number(9)),
            Key::KeyE => Some(KeyIdentifier::Chain),
            Key::Unknown(code) => {
                if *code == MOUSE_LEFT_CODE {
                    Some(KeyIdentifier::HeavyAttack)
                } else {
                    None
                }
            },
            _ => None,
        }
    }

    /// Whether the key is the one the expected command asks for.
    fn matches_current_command(&self, key: &Key) -> (r: bool)
        ensures
            r == matches_expected(self.expected(), *key),
    {
        match &self.current_command {
            Some(cmd) => match Self::key_to_identifier(key) {
                Some(id) => cmd.key == id,
                None => false,
            },
            None => false,
        }
    }

    /// Whether the expected command is a hold.
    fn current_command_requires_hold(&self) -> (r: bool)
        ensures
            r == expects_hold(self.expected()),
    {
        match &self.current_command {
            Some(cmd) => match cmd.input_type {
                InputType::Hold { .. } => true,
                InputType::Tap => false,
            },
            None => false,
        }
    }

    /// Where the record of `key` stands.
    fn find(&self, key: &Key) -> (r: Option<usize>)
        requires
            self.wf(),
        ensures
            match r {
                Some(i) => position(self.entries(), *key) == Some(i as int),
                None => position(self.entries(), *key) is None,
            },
    {
        let n = self.key_states.len();
        let mut i: usize = 0;
        while i < n
            invariant
                self.wf(),
                n == self.key_states@.len(),
                i <= n,
                forall|j: int| 0 <= j < i ==> self.key_states@[j].key != *key,
            decreases n - i,
        {
            if self.key_states[i].key == *key {
                proof {
                    lemma_position_at(self.entries(), i as int);
                }
                return Some(i);
            }
            i += 1;
        }
        None
    }

    /// The record of `key`, if it is down.
    pub fn key_state(&self, key: Key) -> (r: Option<KeyState>)
        requires
            self.wf(),
        ensures
            r == state_of(self.entries(), key),
    {
        match self.find(&key) {
            Some(i) => Some(self.key_states[i].state),
            None => None,
        }
    }

    /// Handles a key going down at `now_ms`. A key that is already down is
    /// left as it is and reports nothing. Otherwise its record is created;
    /// if it completes the expected tap, the record is marked consumed and
    /// `TapComplete` reported, else `KeyDown`.
    pub fn on_key_press(&mut self, key: Key, now_ms: u64) -> (r: Option<KeyEvent>)
        requires
            old(self).wf(),
        ensures
            final(self).wf(),
            final(self).entries() == press_entries(
                old(self).entries(),
                old(self).expected(),
                key,
                now_ms,
            ),
            final(self).command() == old(self).command(),
            final(self).threshold() == old(self).threshold(),
            r == press_event(old(self).entries(), old(self).expected(), key),
    {
        if self.find(&key).is_some() {
            return None;
        }
        let tap = self.matches_current_command(&key) && !self.current_command_requires_hold();
        let entry = PressEntry {
            key,
            state: KeyState { press_time: now_ms, hold_triggered: false, consumed: tap },
        };
        proof {
            lemma_unique_push(self.entries(), entry);
        }
        self.key_states.push(entry);
        if tap {
            Some(KeyEvent::TapComplete(key))
        } else {
            Some(KeyEvent::KeyDown(key))
        }
    }

    /// Handles a key going up at `now_ms`: its record goes. The release
    /// completes the expected hold when the press was neither consumed nor
    /// already reported, and lasted the threshold; anything else is `KeyUp`.
    pub fn on_key_release(&mut self, key: Key, now_ms: u64) -> (r: Option<KeyEvent>)
        requires
            old(self).wf(),
        ensures
            final(self).wf(),
            final(self).entries() == release_entries(old(self).entries(), key),
            final(self).command() == old(self).command(),
            final(self).threshold() == old(self).threshold(),
            r == Some(
                release_event(
                    old(self).entries(),
                    old(self).expected(),
                    old(self).threshold(),
                    key,
                    now_ms,
                ),
            ),
    {
        let i = match self.find(&key) {
            Some(i) => i,
            None => return Some(KeyEvent::KeyUp(key)),
        };
        proof {
            lemma_unique_remove(self.entries(), i as int);
        }
        let state = self.key_states.remove(i).state;
        if state.consumed {
            return Some(KeyEvent::KeyUp(key));
        }
        if !state.hold_triggered {
            let duration = elapsed_ms(now_ms, state.press_time);
            if self.matches_current_command(&key) && self.current_command_requires_hold() {
                if duration >= self.hold_threshold {
                    return Some(KeyEvent::HoldComplete(key));
                }
            }
        }
        Some(KeyEvent::KeyUp(key))
    }

    /// One tick of the hold monitor at `now_ms`. Each record whose hold is
    /// pending reports, in table order, `HoldComplete` if it has lasted the
    /// threshold, and is then flagged so that nothing reports it again, or
    /// else its progress. Records are never removed.
    pub fn monitor_tick(&mut self, now_ms: u64) -> (r: Vec<KeyEvent>)
        requires
            old(self).wf(),
        ensures
            final(self).wf(),
            final(self).entries() == tick_entries(
                old(self).entries(),
                old(self).expected(),
                old(self).threshold(),
                now_ms,
            ),
            final(self).command() == old(self).command(),
            final(self).threshold() == old(self).threshold(),
            r@ == tick_events(
                old(self).entries(),
                old(self).expected(),
                old(self).threshold(),
                now_ms,
            ),
    {
        let ghost old_entries = self.entries();
        let ghost expected = self.expected();
        let threshold = self.hold_threshold;
        let hold = self.current_command_requires_hold();
        let n = self.key_states.len();
        let mut events: Vec<KeyEvent> = Vec::new();
        let mut updated: Vec<PressEntry> = Vec::new();
        let mut i: usize = 0;
        while i < n
            invariant
                old_entries == self.entries(),
                expected == self.expected(),
                threshold == self.threshold(),
                hold == expects_hold(expected),
                n == old_entries.len(),
                i <= n,
                updated@ == tick_entries(old_entries.take(i as int), expected, threshold, now_ms),
                events@ == tick_events(old_entries.take(i as int), expected, threshold, now_ms),
            decreases n - i,
        {
            let e = self.key_states[i];
            let ghost before = events@;
            if !e.state.consumed && !e.state.hold_triggered && hold
                && self.matches_current_command(&e.key) {
                let duration = elapsed_ms(now_ms, e.state.press_time);
                if duration >= threshold {
                    events.push(KeyEvent::HoldComplete(e.key));
                    updated.push(
                        PressEntry {
                            key: e.key,
                            state: KeyState {
                                press_time: e.state.press_time,
                                hold_triggered: true,
                                consumed: e.state.consumed,
                            },
                        },
                    );
                } else {
                    events.push(KeyEvent::HoldProgress(e.key, duration, threshold));
                    updated.push(e);
                }
            } else {
                updated.push(e);
            }
            proof {
                let t = old_entries.take(i as int + 1);
                assert(t.drop_last() =~= old_entries.take(i as int));
                assert(t.last() == e);
                assert(events@ =~= before + tick_event(e, expected, threshold, now_ms));
                assert(updated@ =~= tick_entries(t, expected, threshold, now_ms));
            }
            i += 1;
        }
        proof {
            assert(old_entries.take(n as int) =~= old_entries);
            lemma_unique_tick(old_entries, expected, threshold, now_ms);
        }
        self.key_states = updated;
        events
    }

    /// Looks for the first key in the table whose hold is due at `now_ms`;
    /// flags it so that nothing reports it again, and returns it.
    pub fn check_hold_complete(&mut self, now_ms: u64) -> (r: Option<Key>)
        requires
            old(self).wf(),
        ensures
            final(self).wf(),
            final(self).command() == old(self).command(),
            final(self).threshold() == old(self).threshold(),
            match first_due(old(self).entries(), old(self).expected(), old(self).threshold(), now_ms) {
                Some(i) => {
                    &&& r == Some(old(self).entries()[i].key)
                    &&& final(self).entries() == old(self).entries().update(
                        i,
                        tick_entry(
                            old(self).entries()[i],
                            old(self).expected(),
                            old(self).threshold(),
                            now_ms,
                        ),
                    )
                },
                None => r is None && final(self).entries() == old(self).entries(),
            },
    {
        let ghost old_entries = self.entries();
        let ghost expected = self.expected();
        let threshold = self.hold_threshold;
        let hold = self.current_command_requires_hold();
        let n = self.key_states.len();
        let mut i: usize = 0;
        while i < n
            invariant
                old_entries == self.entries(),
                expected == self.expected(),
                threshold == self.threshold(),
                hold == expects_hold(expected),
                self.command() == old(self).command(),
                self.threshold() == old(self).threshold(),
                keys_unique(old_entries),
                old_entries == old(self).entries(),
                n == old_entries.len(),
                i <= n,
                forall|j: int| 0 <= j < i ==> !hold_due(old_entries[j], expected, threshold, now_ms),
            decreases n - i,
        {
            let e = self.key_states[i];
            if !e.state.consumed && !e.state.hold_triggered
                && elapsed_ms(now_ms, e.state.press_time) >= threshold {
                if self.matches_current_command(&e.key) && hold {
                    let flagged = PressEntry {
                        key: e.key,
                        state: KeyState {
                            press_time: e.state.press_time,
                            hold_triggered: true,
                            consumed: e.state.consumed,
                        },
                    };
                    proof {
                        assert(is_first_due(old_entries, i as int, expected, threshold, now_ms));
                        let c = choose|c: int| is_first_due(old_entries, c, expected, threshold, now_ms);
                        assert(c == i as int) by {
                            if c < i as int {
                                assert(!hold_due(old_entries[c], expected, threshold, now_ms));
                            } else if c > i as int {
                                assert(!hold_due(old_entries[i as int], expected, threshold, now_ms));
                            }
                        }
                    }
                    self.key_states.set(i, flagged);
                    proof {
                        assert(flagged == tick_entry(old_entries[i as int], expected, threshold, now_ms));
                        let u = old_entries.update(i as int, flagged);
                        assert(self.entries() =~= u);
                        assert forall|a: int, b: int|
                            0 <= a < u.len() && 0 <= b < u.len() && a != b implies u[a].key
                            != u[b].key by {
                            assert(u[a].key == old_entries[a].key);
                            assert(u[b].key == old_entries[b].key);
                        }
                    }
                    return Some(e.key);
                }
            }
            i += 1;
        }
        None
    }

    /// Handles one raw edge from a key source at `now_ms`, and returns what
    /// goes to the consumer. Keyboard edges are always passed on raw; Alt
    /// keys are not discriminated; of the engine's answer to a keyboard edge
    /// only a completion is passed on. The primary mouse button is
    /// discriminated as its sentinel key, and the engine's answer passed on.
    pub fn handle_edge(&mut self, edge: InputEdge, now_ms: u64) -> (r: Vec<KeyEvent>)
        requires
            old(self).wf(),
        ensures
            final(self).wf(),
            final(self).entries() == edge_entries(
                old(self).entries(),
                old(self).expected(),
                edge,
                now_ms,
            ),
            final(self).command() == old(self).command(),
            final(self).threshold() == old(self).threshold(),
            r@ == edge_events(
                old(self).entries(),
                old(self).expected(),
                old(self).threshold(),
                edge,
                now_ms,
            ),
    {
        let mut out: Vec<KeyEvent> = Vec::new();
        match edge {
            InputEdge::KeyPress(key) => {
                out.push(KeyEvent::KeyDown(key));
                if !(key == Key::Alt || key == Key::AltGr) {
                    if let Some(evt) = self.on_key_press(key, now_ms) {
                        if evt == KeyEvent::TapComplete(key) {
                            out.push(evt);
                        }
                    }
                }
            },
            InputEdge::KeyRelease(key) => {
                out.push(KeyEvent::KeyUp(key));
                if !(key == Key::Alt || key == Key::AltGr) {
                    if let Some(evt) = self.on_key_release(key, now_ms) {
                        if evt == KeyEvent::HoldComplete(key) {
                            out.push(evt);
                        }
                    }
                }
            },
            InputEdge::MouseLeftPress => {
                if let Some(evt) = self.on_key_press(Key::Unknown(MOUSE_LEFT_CODE), now_ms) {
                    out.push(evt);
                }
            },
            InputEdge::MouseLeftRelease => {
                if let Some(evt) = self.on_key_release(Key::Unknown(MOUSE_LEFT_CODE), now_ms) {
                    out.push(evt);
                }
            },
        }
        proof {
            assert(out@ =~= edge_events(
                old(self).entries(),
                old(self).expected(),
                old(self).threshold(),
                edge,
                now_ms,
            ));
        }
        out
    }
}

impl Default for InputHandler {
    fn default() -> (r: Self)
        ensures
            r.wf(),
            r.entries() == Seq::<PressEntry>::empty(),
            r.command() is None,
            r.threshold() == DEFAULT_HOLD_THRESHOLD_MS,
    {
        Self::new()
    }
}

/// Milliseconds from `since` to `now`, and zero if the clock went back.
fn elapsed_ms(now: u64, since: u64) -> (r: u64)
    ensures
        r == elapsed(now, since),
{
    if now >= since {
        now - since
    } else {
        0
    }
}

// ---------------------------------------------------------------------------
// Laws.

/// The key an event is about.
pub open spec fn event_key(ev: KeyEvent) -> Key {
    match ev {
        KeyEvent::KeyDown(k) => k,
        KeyEvent::KeyUp(k) => k,
        KeyEvent::HoldComplete(k) => k,
        KeyEvent::TapComplete(k) => k,
        KeyEvent::HoldProgress(k, _, _) => k,
    }
}

/// How many of the events are about `k`.
pub open spec fn count_about(evs: Seq<KeyEvent>, k: Key) -> nat
    decreases evs.len(),
{
    if evs.len() == 0 {
        0
    } else {
        count_about(evs.drop_last(), k) + if event_key(evs.last()) == k {
            1nat
        } else {
            0nat
        }
    }
}

/// How many of the events are `ev`.
pub open spec fn count_of(evs: Seq<KeyEvent>, ev: KeyEvent) -> nat
    decreases evs.len(),
{
    if evs.len() == 0 {
        0
    } else {
        count_of(evs.drop_last(), ev) + if evs.last() == ev {
            1nat
        } else {
            0nat
        }
    }
}

proof fn lemma_counts_add(a: Seq<KeyEvent>, b: Seq<KeyEvent>, k: Key, ev: KeyEvent)
    ensures
        count_about(a + b, k) == count_about(a, k) + count_about(b, k),
        count_of(a + b, ev) == count_of(a, ev) + count_of(b, ev),
    decreases b.len(),
{
    if b.len() == 0 {
        assert(a + b =~= a);
    } else {
        assert((a + b).drop_last() =~= a + b.drop_last());
        lemma_counts_add(a, b.drop_last(), k, ev);
    }
}

/// A record that is not down anywhere in the table has no position.
proof fn lemma_position_none(entries: Seq<PressEntry>, k: Key)
    requires
        forall|i: int| 0 <= i < entries.len() ==> entries[i].key != k,
    ensures
        position(entries, k) is None,
{
}

/// The events of a monitor tick about `k` are those of the record of `k`.
pub proof fn lemma_tick_counts(
    entries: Seq<PressEntry>,
    expected: Option<(KeyIdentifier, bool)>,
    threshold: u64,
    now: u64,
    k: Key,
    ev: KeyEvent,
)
    requires
        keys_unique(entries),
        event_key(ev) == k,
    ensures
        count_about(tick_events(entries, expected, threshold, now), k) == match position(
            entries,
            k,
        ) {
            Some(i) => count_about(tick_event(entries[i], expected, threshold, now), k),
            None => 0,
        },
        count_of(tick_events(entries, expected, threshold, now), ev) == match position(
            entries,
            k,
        ) {
            Some(i) => count_of(tick_event(entries[i], expected, threshold, now), ev),
            None => 0,
        },
    decreases entries.len(),
{
    if entries.len() == 0 {
        lemma_position_none(entries, k);
    } else {
        let d = entries.drop_last();
        let n = entries.len() - 1;
        assert(keys_unique(d)) by {
            assert forall|a: int, b: int|
                0 <= a < d.len() && 0 <= b < d.len() && a != b implies d[a].key != d[b].key by {
                assert(d[a] == entries[a]);
                assert(d[b] == entries[b]);
            }
        }
        lemma_tick_counts(d, expected, threshold, now, k, ev);
        let last = tick_event(entries.last(), expected, threshold, now);
        lemma_counts_add(tick_events(d, expected, threshold, now), last, k, ev);
        if entries.last().key == k {
            lemma_position_at(entries, n);
            assert forall|i: int| 0 <= i < d.len() implies d[i].key != k by {
                assert(d[i] == entries[i]);
            }
            lemma_position_none(d, k);
        } else {
            assert(count_about(last, k) == 0 && count_of(last, ev) == 0) by {
                reveal_with_fuel(count_about, 2);
                reveal_with_fuel(count_of, 2);
            }
            match position(d, k) {
                Some(i) => {
                    assert(d[i] == entries[i]);
                    lemma_position_at(entries, i);
                },
                None => {
                    assert forall|i: int| 0 <= i < entries.len() implies entries[i].key != k by {
                        if i < n {
                            assert(d[i] == entries[i]);
                        }
                    }
                    lemma_position_none(entries, k);
                },
            }
        }
    }
}

/// A monitor tick leaves every record where it stood.
pub proof fn lemma_tick_position(
    entries: Seq<PressEntry>,
    expected: Option<(KeyIdentifier, bool)>,
    threshold: u64,
    now: u64,
    k: Key,
)
    requires
        keys_unique(entries),
    ensures
        position(tick_entries(entries, expected, threshold, now), k) == position(entries, k),
{
    let t = tick_entries(entries, expected, threshold, now);
    lemma_unique_tick(entries, expected, threshold, now);
    match position(entries, k) {
        Some(i) => {
            lemma_position_at(entries, i);
            lemma_position_at(t, i);
        },
        None => {
            assert forall|i: int| 0 <= i < t.len() implies t[i].key != k by {
                assert(t[i].key == entries[i].key);
            }
            lemma_position_none(t, k);
        },
    }
}

/// The record a press creates.
proof fn lemma_pressed(
    entries: Seq<PressEntry>,
    expected: Option<(KeyIdentifier, bool)>,
    k: Key,
    now: u64,
)
    requires
        keys_unique(entries),
        position(entries, k) is None,
    ensures
        keys_unique(press_entries(entries, expected, k, now)),
        position(press_entries(entries, expected, k, now), k) == Some(entries.len() as int),
        press_entries(entries, expected, k, now)[entries.len() as int] == (PressEntry {
            key: k,
            state: KeyState {
                press_time: now,
                hold_triggered: false,
                consumed: is_tap_match(expected, k),
            },
        }),
        release_entries(press_entries(entries, expected, k, now), k) == entries,
{
    let e1 = press_entries(entries, expected, k, now);
    lemma_unique_push(entries, e1.last());
    lemma_position_at(e1, entries.len() as int);
    assert(e1.remove(entries.len() as int) =~= entries);
}

/// A key that the expected action does not ask for completes nothing: its
/// press reports `KeyDown`, and in every later state its release reports
/// `KeyUp` and a monitor tick reports nothing about it.
pub proof fn law_no_false_completion(
    entries: Seq<PressEntry>,
    expected: Option<(KeyIdentifier, bool)>,
    threshold: u64,
    k: Key,
)
    requires
        keys_unique(entries),
        position(entries, k) is None,
        !matches_expected(expected, k),
    ensures
        press_event(entries, expected, k) == Some(KeyEvent::KeyDown(k)),
        forall|later: Seq<PressEntry>, now: u64|
            #[trigger] release_event(later, expected, threshold, k, now) == KeyEvent::KeyUp(k),
        forall|later: Seq<PressEntry>, now: u64|
            keys_unique(later) ==> #[trigger] count_about(
                tick_events(later, expected, threshold, now),
                k,
            ) == 0,
{
    assert forall|later: Seq<PressEntry>, now: u64| keys_unique(later) implies #[trigger] count_about(
        tick_events(later, expected, threshold, now),
        k,
    ) == 0 by {
        lemma_tick_counts(later, expected, threshold, now, k, KeyEvent::KeyUp(k));
    }
}

/// A press that completes the expected tap reports `TapComplete` at once.
/// Its record is consumed: whatever is expected later, no tick reports it
/// and its release reports only `KeyUp`, also after a tick.
pub proof fn law_tap_is_immediate(
    entries: Seq<PressEntry>,
    expected: Option<(KeyIdentifier, bool)>,
    k: Key,
    t0: u64,
)
    requires
        keys_unique(entries),
        position(entries, k) is None,
        is_tap_match(expected, k),
    ensures
        press_event(entries, expected, k) == Some(KeyEvent::TapComplete(k)),
        forall|later_expected: Option<(KeyIdentifier, bool)>, threshold: u64, now: u64|
            #[trigger] count_about(
                tick_events(press_entries(entries, expected, k, t0), later_expected, threshold, now),
                k,
            ) == 0,
        forall|later_expected: Option<(KeyIdentifier, bool)>, threshold: u64, now: u64|
            #[trigger] release_event(
                press_entries(entries, expected, k, t0),
                later_expected,
                threshold,
                k,
                now,
            ) == KeyEvent::KeyUp(k),
        forall|later_expected: Option<(KeyIdentifier, bool)>, threshold: u64, tick: u64, now: u64|
            #[trigger] release_event(
                tick_entries(
                    press_entries(entries, expected, k, t0),
                    later_expected,
                    threshold,
                    tick,
                ),
                later_expected,
                threshold,
                k,
                now,
            ) == KeyEvent::KeyUp(k),
{
    let e1 = press_entries(entries, expected, k, t0);
    let n = entries.len() as int;
    lemma_pressed(entries, expected, k, t0);
    assert forall|later_expected: Option<(KeyIdentifier, bool)>, threshold: u64, now: u64|
        #[trigger] count_about(tick_events(e1, later_expected, threshold, now), k) == 0 by {
        lemma_tick_counts(e1, later_expected, threshold, now, k, KeyEvent::KeyUp(k));
    }
    assert forall|later_expected: Option<(KeyIdentifier, bool)>, threshold: u64, tick: u64, now: u64|
        #[trigger] release_event(
            tick_entries(e1, later_expected, threshold, tick),
            later_expected,
            threshold,
            k,
            now,
        ) == KeyEvent::KeyUp(k) by {
        lemma_tick_position(e1, later_expected, threshold, tick, k);
        let t = tick_entries(e1, later_expected, threshold, tick);
        assert(t[n] == tick_entry(e1[n], later_expected, threshold, tick));
    }
}

/// A hold released before the threshold fails silently: the press reports
/// `KeyDown`, a tick before the release completes nothing, the release
/// reports `KeyUp`, and the table is as it was before the press.
pub proof fn law_early_release_fails(
    entries: Seq<PressEntry>,
    expected: Option<(KeyIdentifier, bool)>,
    threshold: u64,
    k: Key,
    t0: u64,
    tick: u64,
    t1: u64,
)
    requires
        keys_unique(entries),
        position(entries, k) is None,
        is_hold_match(expected, k),
        t0 <= tick <= t1,
        t1 - t0 < threshold,
    ensures
        press_event(entries, expected, k) == Some(KeyEvent::KeyDown(k)),
        count_of(
            tick_events(press_entries(entries, expected, k, t0), expected, threshold, tick),
            KeyEvent::HoldComplete(k),
        ) == 0,
        release_event(press_entries(entries, expected, k, t0), expected, threshold, k, t1)
            == KeyEvent::KeyUp(k),
        release_event(
            tick_entries(press_entries(entries, expected, k, t0), expected, threshold, tick),
            expected,
            threshold,
            k,
            t1,
        ) == KeyEvent::KeyUp(k),
        release_entries(press_entries(entries, expected, k, t0), k) == entries,
{
    let e1 = press_entries(entries, expected, k, t0);
    let n = entries.len() as int;
    lemma_pressed(entries, expected, k, t0);
    lemma_tick_counts(e1, expected, threshold, tick, k, KeyEvent::HoldComplete(k));
    assert(count_of(tick_event(e1[n], expected, threshold, tick), KeyEvent::HoldComplete(k)) == 0)
        by {
        reveal_with_fuel(count_of, 2);
    }
    lemma_tick_position(e1, expected, threshold, tick, k);
    let t = tick_entries(e1, expected, threshold, tick);
    assert(t[n] == tick_entry(e1[n], expected, threshold, tick));
}

/// A hold kept down past the threshold completes exactly once: the tick
/// that sees it reports `HoldComplete` once and nothing else about the key;
/// after it, whatever is expected, no tick reports the key and its release
/// reports only `KeyUp`.
pub proof fn law_hold_completes_once(
    entries: Seq<PressEntry>,
    expected: Option<(KeyIdentifier, bool)>,
    threshold: u64,
    k: Key,
    t0: u64,
    t1: u64,
)
    requires
        keys_unique(entries),
        position(entries, k) is None,
        is_hold_match(expected, k),
        t0 <= t1,
        t1 - t0 >= threshold,
    ensures
        press_event(entries, expected, k) == Some(KeyEvent::KeyDown(k)),
        count_about(
            tick_events(press_entries(entries, expected, k, t0), expected, threshold, t1),
            k,
        ) == 1,
        count_of(
            tick_events(press_entries(entries, expected, k, t0), expected, threshold, t1),
            KeyEvent::HoldComplete(k),
        ) == 1,
        forall|later_expected: Option<(KeyIdentifier, bool)>, th: u64, now: u64|
            #[trigger] count_about(
                tick_events(
                    tick_entries(press_entries(entries, expected, k, t0), expected, threshold, t1),
                    later_expected,
                    th,
                    now,
                ),
                k,
            ) == 0,
        forall|later_expected: Option<(KeyIdentifier, bool)>, th: u64, now: u64|
            #[trigger] release_event(
                tick_entries(press_entries(entries, expected, k, t0), expected, threshold, t1),
                later_expected,
                th,
                k,
                now,
            ) == KeyEvent::KeyUp(k),
{
    let e1 = press_entries(entries, expected, k, t0);
    let n = entries.len() as int;
    lemma_pressed(entries, expected, k, t0);
    lemma_tick_counts(e1, expected, threshold, t1, k, KeyEvent::HoldComplete(k));
    assert(tick_event(e1[n], expected, threshold, t1) == seq![KeyEvent::HoldComplete(k)]);
    assert(count_about(seq![KeyEvent::HoldComplete(k)], k) == 1) by {
        reveal_with_fuel(count_about, 2);
    }
    assert(count_of(seq![KeyEvent::HoldComplete(k)], KeyEvent::HoldComplete(k)) == 1) by {
        reveal_with_fuel(count_of, 2);
    }
    let e2 = tick_entries(e1, expected, threshold, t1);
    lemma_tick_position(e1, expected, threshold, t1, k);
    lemma_unique_tick(e1, expected, threshold, t1);
    assert(e2[n] == tick_entry(e1[n], expected, threshold, t1));
    assert forall|later_expected: Option<(KeyIdentifier, bool)>, th: u64, now: u64|
        #[trigger] count_about(tick_events(e2, later_expected, th, now), k) == 0 by {
        lemma_tick_counts(e2, later_expected, th, now, k, KeyEvent::KeyUp(k));
    }
}

/// A press of a key that is already down is a no-op: no event, and the
/// record, its press time included, stays as the first press made it.
pub proof fn law_key_repeat_ignored(
    entries: Seq<PressEntry>,
    expected: Option<(KeyIdentifier, bool)>,
    k: Key,
    t0: u64,
)
    requires
        keys_unique(entries),
        position(entries, k) is None,
    ensures
        state_of(press_entries(entries, expected, k, t0), k) == Some(
            KeyState { press_time: t0, hold_triggered: false, consumed: is_tap_match(expected, k) },
        ),
        forall|later_expected: Option<(KeyIdentifier, bool)>, t1: u64|
            #[trigger] press_entries(press_entries(entries, expected, k, t0), later_expected, k, t1)
                == press_entries(entries, expected, k, t0),
        forall|later_expected: Option<(KeyIdentifier, bool)>|
            #[trigger] press_event(press_entries(entries, expected, k, t0), later_expected, k)
                is None,
{
    lemma_pressed(entries, expected, k, t0);
}

/// The progress a tick reports, if it reports exactly one.
pub open spec fn progress_of(evs: Seq<KeyEvent>) -> Option<u64> {
    if evs.len() == 1 {
        match evs[0] {
            KeyEvent::HoldProgress(_, d, _) => Some(d),
            _ => None,
        }
    } else {
        None
    }
}

/// Progress of a pending hold never goes back and stays below the
/// threshold: a tick that reports progress leaves the record as it was, and
/// a later tick reports at least as much. A record that is consumed or
/// already reported gets no progress at all.
pub proof fn law_progress_monotone(
    r: PressEntry,
    expected: Option<(KeyIdentifier, bool)>,
    threshold: u64,
    t1: u64,
    t2: u64,
)
    requires
        t1 <= t2,
    ensures
        progress_of(tick_event(r, expected, threshold, t1)) is Some ==> {
            &&& progress_of(tick_event(r, expected, threshold, t1))->0 < threshold
            &&& tick_entry(r, expected, threshold, t1) == r
        },
        progress_of(tick_event(r, expected, threshold, t1)) is Some && progress_of(
            tick_event(r, expected, threshold, t2),
        ) is Some ==> progress_of(tick_event(r, expected, threshold, t1))->0 <= progress_of(
            tick_event(r, expected, threshold, t2),
        )->0,
        !hold_pending(r, expected) ==> tick_event(r, expected, threshold, t1) == Seq::<
            KeyEvent,
        >::empty(),
{
}

} // verus!
