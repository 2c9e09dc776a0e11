//! The step sequencer: the loaded combo, the index of the current step, and
//! the decisions taken on each event of the discrimination engine.
//!
//! Steps are the commands that are not title lines. Advancing wraps from
//! the last step to the first; going back stops at the first. After every
//! change of index the engine is told the new expected command before it
//! sees another edge, since both live in this one state.

use vstd::prelude::*;

use vstd::arithmetic::div_mod::{lemma_add_mod_noop_right, lemma_mod_bound};

use crate::combo::{
    commands_view, decimal, decimal_string, ComboCommand, ComboFile, CommandView, InputType,
    KeyIdentifier,
};
use crate::config::KeyBindings;
use crate::input::{
    edge_entries, edge_events, is_alt, tick_entries, tick_events, InputEdge, InputHandler, Key, KeyEvent,
};

verus! {

/// The steps of a list of commands: those that are not title lines.
pub open spec fn steps(cmds: Seq<CommandView>) -> Seq<CommandView>
    decreases cmds.len(),
{
    if cmds.len() == 0 {
        Seq::empty()
    } else if cmds.last().is_title {
        steps(cmds.drop_last())
    } else {
        steps(cmds.drop_last()).push(cmds.last())
    }
}

/// The index after advancing among `n` steps: one on, wrapping to the first.
pub open spec fn advance_index(i: int, n: int) -> int {
    if n > 0 {
        (i + 1) % n
    } else {
        i
    }
}

/// The index after going back among `n` steps: one back, stopping at the first.
pub open spec fn previous_index(i: int, n: int) -> int {
    if n > 0 && i > 0 {
        i - 1
    } else {
        i
    }
}

/// How a step's key is shown: its number, after `Hold ` for a hold; `E` for
/// the chain attack; `L` for the heavy attack.
pub open spec fn key_display(c: CommandView) -> Seq<char> {
    match c.key {
        KeyIdentifier::Number(n) => if c.input_type is Hold {
            "Hold "@ + decimal(n as nat)
        } else {
            decimal(n as nat)
        },
        KeyIdentifier::Chain => "E"@,
        KeyIdentifier::HeavyAttack => "L"@,
        KeyIdentifier::MouseLeft => "L"@,
    }
}

/// What is shown of the current step.
#[derive(Debug, Clone)]
pub struct CurrentCommandInfo {
    pub index: usize,
    pub total: usize,
    pub title: String,
    pub key_display: String,
    pub character: String,
    pub skill_type: String,
    pub memo: String,
    pub is_hold: bool,
}

/// The info shows step `index` of `list`, in a combo titled `title`.
pub open spec fn shows_step(
    info: CurrentCommandInfo,
    list: Seq<CommandView>,
    index: int,
    title: Seq<char>,
) -> bool {
    &&& 0 <= index < list.len()
    &&& info.index == index
    &&& info.total == list.len()
    &&& info.title@ == title
    &&& info.key_display@ == key_display(list[index])
    &&& info.character@ == list[index].character
    &&& info.skill_type@ == list[index].skill_type
    &&& info.memo@ == list[index].memo
    &&& info.is_hold == list[index].input_type is Hold
}

/// What the consumer of events is asked to do.
#[derive(Debug, Clone, Copy, PartialEq, Eq, Structural)]
pub enum UiAction {
    /// The current step changed: show it.
    ComboUpdate,
    /// Show the progress of a pending hold: milliseconds held, threshold.
    HoldProgress(u64, u64),
    /// An Alt key went down (true) or up (false): the overlay takes the
    /// mouse while Alt is down.
    AltStatus(bool),
    /// Open the settings window.
    OpenSettings,
    /// The overlay is now shown (true) or hidden (false).
    OverlayVisibility(bool),
}

/// The index after an event, among `n` steps: a completion and the right
/// arrow advance, the left arrow goes back.
pub open spec fn event_index(event: KeyEvent, i: int, n: int) -> int {
    match event {
        KeyEvent::TapComplete(_) => advance_index(i, n),
        KeyEvent::HoldComplete(_) => advance_index(i, n),
        KeyEvent::KeyDown(k) => if k == Key::RightArrow {
            advance_index(i, n)
        } else if k == Key::LeftArrow {
            previous_index(i, n)
        } else {
            i
        },
        _ => i,
    }
}

/// Whether the overlay is shown after an event: the key bound to toggling it
/// flips it, unless the same key also opens the settings.
pub open spec fn event_visible(
    event: KeyEvent,
    key_name: Seq<char>,
    bindings: KeyBindings,
    visible: bool,
) -> bool {
    match event {
        KeyEvent::KeyDown(_) => if key_name != bindings.open_settings@ && key_name
            == bindings.toggle_overlay@ {
            !visible
        } else {
            visible
        },
        _ => visible,
    }
}

/// What the consumer is asked to do on an event, among `n` steps at index
/// `i`: show the step if the index moved, show hold progress, follow Alt,
/// and act on the bound keys.
pub open spec fn event_actions(
    event: KeyEvent,
    key_name: Seq<char>,
    bindings: KeyBindings,
    i: int,
    n: int,
    visible: bool,
) -> Seq<UiAction> {
    let moved = if event_changes_step(event, i, n) {
        seq![UiAction::ComboUpdate]
    } else {
        seq![]
    };
    match event {
        KeyEvent::TapComplete(_) => moved,
        KeyEvent::HoldComplete(_) => moved,
        KeyEvent::HoldProgress(_, held, threshold) => seq![
            UiAction::HoldProgress(held, threshold),
        ],
        KeyEvent::KeyDown(k) => {
            let alt = if is_alt(k) {
                seq![UiAction::AltStatus(true)]
            } else {
                seq![]
            };
            let bound = if key_name == bindings.open_settings@ {
                seq![UiAction::OpenSettings]
            } else if key_name == bindings.toggle_overlay@ {
                seq![UiAction::OverlayVisibility(!visible)]
            } else {
                seq![]
            };
            alt + moved + bound
        },
        KeyEvent::KeyUp(k) => if is_alt(k) {
            seq![UiAction::AltStatus(false)]
        } else {
            seq![]
        },
    }
}

/// The event moves to another step, or shows the same one again: a
/// completion and the right arrow whenever there is a step, the left arrow
/// when there is a step before the current one.
pub open spec fn event_changes_step(event: KeyEvent, i: int, n: int) -> bool {
    match event {
        KeyEvent::TapComplete(_) => n > 0,
        KeyEvent::HoldComplete(_) => n > 0,
        KeyEvent::KeyDown(k) => if k == Key::RightArrow {
            n > 0
        } else if k == Key::LeftArrow {
            n > 0 && i > 0
        } else {
            false
        },
        _ => false,
    }
}

/// Among `n` steps, advancing from the last step goes to the first, and from
/// any other step one on; going back from the first step stays there, and
/// from any other step goes one back. Both keep an index in range.
pub proof fn law_sequencer_wraparound(n: int, i: int)
    requires
        n > 0,
        0 <= i < n,
    ensures
        advance_index(n - 1, n) == 0,
        previous_index(0, n) == 0,
        i < n - 1 ==> advance_index(i, n) == i + 1,
        i > 0 ==> previous_index(i, n) == i - 1,
        0 <= advance_index(i, n) < n,
        0 <= previous_index(i, n) < n,
{
    assert(n % n == 0) by (nonlinear_arith)
        requires
            n > 0,
    ;
    if i < n - 1 {
        assert((i + 1) % n == i + 1) by (nonlinear_arith)
            requires
                0 <= i + 1 < n,
        ;
    } else {
        assert(i + 1 == n);
    }
}

/// Where a step stands among the commands, and how many steps there are.
fn locate_step(cmds: &Vec<ComboCommand>, index: usize) -> (r: (Option<usize>, usize))
    ensures
        r.1 == steps(commands_view(cmds@)).len(),
        match r.0 {
            Some(j) => j < cmds@.len() && index < r.1 && cmds@[j as int]@ == steps(
                commands_view(cmds@),
            )[index as int],
            None => index >= r.1,
        },
{
    let n = cmds.len();
    let ghost cv = commands_view(cmds@);
    let mut count: usize = 0;
    let mut found: Option<usize> = None;
    let mut j: usize = 0;
    proof {
        assert(cv.take(0) =~= Seq::<CommandView>::empty());
    }
    while j < n
        invariant
            n == cmds@.len(),
            cv == commands_view(cmds@),
            j <= n,
            count <= j,
            count == steps(cv.take(j as int)).len(),
            match found {
                Some(p) => p < j && index < count && cmds@[p as int]@ == steps(
                    cv.take(j as int),
                )[index as int],
                None => index >= count,
            },
        decreases n - j,
    {
        let ghost before = cv.take(j as int);
        proof {
            assert(cv.take(j as int + 1).drop_last() =~= before);
            assert(cv.take(j as int + 1).last() == cmds@[j as int]@);
        }
        if !cmds[j].is_title {
            if count == index {
                found = Some(j);
            }
            count += 1;
        }
        j += 1;
    }
    proof {
        assert(cv.take(n as int) =~= cv);
    }
    (found, count)
}

/// How a command's key is shown.
fn display_key(cmd: &ComboCommand) -> (r: String)
    ensures
        r@ == key_display(cmd@),
{
    match cmd.key {
        KeyIdentifier::Number(n) => {
            let digits = decimal_string(n as u64);
            match cmd.input_type {
                InputType::Hold { .. } => {
                    let mut out = String::from_str("Hold ");
                    out.append(digits.as_str());
                    out
                },
                InputType::Tap => digits,
            }
        },
        KeyIdentifier::Chain => String::from_str("E"),
        KeyIdentifier::HeavyAttack | KeyIdentifier::MouseLeft => String::from_str("L"),
    }
}

/// `(i + 1) % n`, without overflow.
fn wrap_next(i: usize, n: usize) -> (r: usize)
    requires
        n > 0,
    ensures
        r as int == (i + 1) % (n as int),
{
    let k = i % n;
    proof {
        lemma_mod_bound(i as int, n as int);
        lemma_add_mod_noop_right(1, i as int, n as int);
    }
    (k + 1) % n
}

/// The loaded combo, the current step, the discrimination engine, and
/// whether the overlay is shown.
pub struct AppState {
    combo_file: Option<ComboFile>,
    current_index: usize,
    input_handler: InputHandler,
    overlay_visible: bool,
}

impl AppState {
    /// The loaded combo.
    pub closed spec fn combo(&self) -> Option<ComboFile> {
        self.combo_file
    }

    /// The index of the current step.
    pub closed spec fn index(&self) -> usize {
        self.current_index
    }

    /// The discrimination engine.
    pub closed spec fn handler(&self) -> InputHandler {
        self.input_handler
    }

    /// Whether the overlay is shown.
    pub closed spec fn visible(&self) -> bool {
        self.overlay_visible
    }

    /// The steps of the loaded combo; none without a combo.
    pub open spec fn step_list(&self) -> Seq<CommandView> {
        match self.combo() {
            Some(f) => steps(f@.commands),
            None => Seq::empty(),
        }
    }

    /// The title of the loaded combo.
    pub open spec fn title(&self) -> Seq<char> {
        match self.combo() {
            Some(f) => f@.title,
            None => Seq::empty(),
        }
    }

    /// The engine expects the current step, or nothing past the last step.
    pub open spec fn synced(&self) -> bool {
        match self.handler().command() {
            Some(c) => self.index() < self.step_list().len() && c@ == self.step_list()[self.index() as int],
            None => self.index() >= self.step_list().len(),
        }
    }

    /// The engine is well formed and expects the current step.
    pub open spec fn wf(&self) -> bool {
        self.handler().wf() && self.synced()
    }

    /// What is returned of the current step: its info, if there is one.
    pub open spec fn reports(&self, r: Option<CurrentCommandInfo>) -> bool {
        match r {
            Some(info) => shows_step(info, self.step_list(), self.index() as int, self.title()),
            None => self.index() >= self.step_list().len(),
        }
    }

    /// No combo, the first step, a fresh engine, and the overlay shown.
    pub fn new() -> (r: Self)
        ensures
            r.wf(),
            r.combo() is None,
            r.index() == 0,
            r.visible(),
            r.handler().entries() == Seq::<crate::input::PressEntry>::empty(),
            r.handler().threshold() == crate::input::DEFAULT_HOLD_THRESHOLD_MS,
    {
        AppState {
            combo_file: None,
            current_index: 0,
            input_handler: InputHandler::new(),
            overlay_visible: true,
        }
    }

    /// The same state around another engine, which is told the current step.
    pub fn with_input_handler(self, handler: InputHandler) -> (r: Self)
        requires
            handler.wf(),
        ensures
            r.wf(),
            r.combo() == self.combo(),
            r.index() == self.index(),
            r.visible() == self.visible(),
            r.handler().entries() == handler.entries(),
            r.handler().threshold() == handler.threshold(),
    {
        let mut s = self;
        s.input_handler = handler;
        s.sync_input_handler();
        s
    }

    /// The index of the current step.
    pub fn current_index(&self) -> (r: usize)
        ensures
            r == self.index(),
    {
        self.current_index
    }

    /// The loaded combo.
    pub fn combo_file(&self) -> (r: &Option<ComboFile>)
        ensures
            *r == self.combo(),
    {
        &self.combo_file
    }

    /// The discrimination engine.
    pub fn input_handler(&self) -> (r: &InputHandler)
        ensures
            *r == self.handler(),
    {
        &self.input_handler
    }

    /// Whether the overlay is shown.
    pub fn get_overlay_visible(&self) -> (r: bool)
        ensures
            r == self.visible(),
    {
        self.overlay_visible
    }

    /// Shows or hides the overlay.
    pub fn set_overlay_visible(&mut self, visible: bool)
        ensures
            final(self).visible() == visible,
            final(self).combo() == old(self).combo(),
            final(self).index() == old(self).index(),
            final(self).handler() == old(self).handler(),
    {
        self.overlay_visible = visible;
    }

    /// Flips whether the overlay is shown, and returns the new setting.
    pub fn toggle_overlay(&mut self) -> (r: bool)
        ensures
            r == !old(self).visible(),
            final(self).visible() == r,
            final(self).combo() == old(self).combo(),
            final(self).index() == old(self).index(),
            final(self).handler() == old(self).handler(),
    {
        self.overlay_visible = !self.overlay_visible;
        self.overlay_visible
    }

    /// Tells the engine the current step: the step at the index, or nothing
    /// past the last step.
    pub fn sync_input_handler(&mut self)
        requires
            old(self).handler().wf(),
        ensures
            final(self).wf(),
            final(self).combo() == old(self).combo(),
            final(self).index() == old(self).index(),
            final(self).visible() == old(self).visible(),
            final(self).handler().entries() == old(self).handler().entries(),
            final(self).handler().threshold() == old(self).handler().threshold(),
    {
        let command = match &self.combo_file {
            Some(file) => {
                let (pos, _) = locate_step(&file.commands, self.current_index);
                match pos {
                    Some(j) => Some(file.commands[j].duplicate()),
                    None => None,
                }
            },
            None => None,
        };
        self.input_handler.set_current_command(command);
    }

    /// The info of the current step, if there is one.
    pub fn get_current_command_internal(&self) -> (r: Option<CurrentCommandInfo>)
        ensures
            self.reports(r),
    {
        match &self.combo_file {
            None => None,
            Some(file) => {
                let (pos, total) = locate_step(&file.commands, self.current_index);
                match pos {
                    None => None,
                    Some(j) => {
                        let cmd = &file.commands[j];
                        let is_hold = match cmd.input_type {
                            InputType::Hold { .. } => true,
                            InputType::Tap => false,
                        };
                        Some(
                            CurrentCommandInfo {
                                index: self.current_index,
                                total,
                                title: file.title.clone(),
                                key_display: display_key(cmd),
                                character: cmd.character.clone(),
                                skill_type: cmd.skill_type.clone(),
                                memo: cmd.memo.clone(),
                                is_hold,
                            },
                        )
                    },
                }
            },
        }
    }

    /// Loads a combo at its first step, and returns its title.
    pub fn load_combo(&mut self, combo: ComboFile) -> (r: String)
        requires
            old(self).wf(),
        ensures
            final(self).wf(),
            final(self).combo() == Some(combo),
            final(self).index() == 0,
            final(self).visible() == old(self).visible(),
            final(self).handler().entries() == old(self).handler().entries(),
            r@ == combo@.title,
    {
        let title = combo.title.clone();
        self.combo_file = Some(combo);
        self.current_index = 0;
        self.sync_input_handler();
        title
    }

    /// Moves to the next step, from the last to the first, and returns the
    /// info of the new step. Without steps nothing changes.
    pub fn advance_command(&mut self) -> (r: Option<CurrentCommandInfo>)
        requires
            old(self).wf(),
        ensures
            final(self).wf(),
            final(self).index() == advance_index(
                old(self).index() as int,
                old(self).step_list().len() as int,
            ),
            final(self).combo() == old(self).combo(),
            final(self).visible() == old(self).visible(),
            final(self).handler().entries() == old(self).handler().entries(),
            final(self).reports(r),
    {
        self.step_forward();
        self.get_current_command_internal()
    }

    /// Moves to the previous step, staying at the first, and returns the
    /// info of the current step.
    pub fn previous_command(&mut self) -> (r: Option<CurrentCommandInfo>)
        requires
            old(self).wf(),
        ensures
            final(self).wf(),
            final(self).index() == previous_index(
                old(self).index() as int,
                old(self).step_list().len() as int,
            ),
            final(self).combo() == old(self).combo(),
            final(self).visible() == old(self).visible(),
            final(self).handler().entries() == old(self).handler().entries(),
            final(self).reports(r),
    {
        self.step_back();
        self.get_current_command_internal()
    }

    /// Goes back to the first step, and returns its info.
    pub fn reset_combo(&mut self) -> (r: Option<CurrentCommandInfo>)
        requires
            old(self).wf(),
        ensures
            final(self).wf(),
            final(self).index() == 0,
            final(self).combo() == old(self).combo(),
            final(self).visible() == old(self).visible(),
            final(self).handler().entries() == old(self).handler().entries(),
            final(self).reports(r),
    {
        self.current_index = 0;
        self.sync_input_handler();
        self.get_current_command_internal()
    }

    /// Advances if there is a step, and says whether it did.
    fn step_forward(&mut self) -> (r: bool)
        requires
            old(self).wf(),
        ensures
            final(self).wf(),
            r == (old(self).step_list().len() > 0),
            final(self).index() == advance_index(
                old(self).index() as int,
                old(self).step_list().len() as int,
            ),
            final(self).combo() == old(self).combo(),
            final(self).visible() == old(self).visible(),
            final(self).handler().entries() == old(self).handler().entries(),
            final(self).handler().threshold() == old(self).handler().threshold(),
    {
        let total = match &self.combo_file {
            Some(file) => locate_step(&file.commands, 0).1,
            None => 0,
        };
        if total == 0 {
            return false;
        }
        self.current_index = wrap_next(self.current_index, total);
        self.sync_input_handler();
        true
    }

    /// Goes back if there is a step before the current one, and says
    /// whether it did.
    fn step_back(&mut self) -> (r: bool)
        requires
            old(self).wf(),
        ensures
            final(self).wf(),
            r == (old(self).step_list().len() > 0 && old(self).index() > 0),
            final(self).index() == previous_index(
                old(self).index() as int,
                old(self).step_list().len() as int,
            ),
            final(self).combo() == old(self).combo(),
            final(self).visible() == old(self).visible(),
            final(self).handler().entries() == old(self).handler().entries(),
            final(self).handler().threshold() == old(self).handler().threshold(),
    {
        let total = match &self.combo_file {
            Some(file) => locate_step(&file.commands, 0).1,
            None => 0,
        };
        if total == 0 || self.current_index == 0 {
            return false;
        }
        self.current_index = self.current_index - 1;
        self.sync_input_handler();
        true
    }

    /// Hands a raw edge to the engine, and returns what goes to the consumer.
    pub fn handle_edge(&mut self, edge: InputEdge, now_ms: u64) -> (r: Vec<KeyEvent>)
        requires
            old(self).wf(),
        ensures
            final(self).wf(),
            final(self).combo() == old(self).combo(),
            final(self).index() == old(self).index(),
            final(self).visible() == old(self).visible(),
            final(self).handler().command() == old(self).handler().command(),
            final(self).handler().threshold() == old(self).handler().threshold(),
            final(self).handler().entries() == edge_entries(
                old(self).handler().entries(),
                old(self).handler().expected(),
                edge,
                now_ms,
            ),
            r@ == edge_events(
                old(self).handler().entries(),
                old(self).handler().expected(),
                old(self).handler().threshold(),
                edge,
                now_ms,
            ),
    {
        self.input_handler.handle_edge(edge, now_ms)
    }

    /// Runs one tick of the engine's hold monitor.
    pub fn monitor_tick(&mut self, now_ms: u64) -> (r: Vec<KeyEvent>)
        requires
            old(self).wf(),
        ensures
            final(self).wf(),
            final(self).combo() == old(self).combo(),
            final(self).index() == old(self).index(),
            final(self).visible() == old(self).visible(),
            final(self).handler().command() == old(self).handler().command(),
            final(self).handler().threshold() == old(self).handler().threshold(),
            final(self).handler().entries() == tick_entries(
                old(self).handler().entries(),
                old(self).handler().expected(),
                old(self).handler().threshold(),
                now_ms,
            ),
            r@ == tick_events(
                old(self).handler().entries(),
                old(self).handler().expected(),
                old(self).handler().threshold(),
                now_ms,
            ),
    {
        self.input_handler.monitor_tick(now_ms)
    }

    /// Acts on one event of the engine. A completion, and the right arrow,
    /// advance; the left arrow goes back; either way the engine is told the
    /// new step before anything else. `key_name` names the key of a
    /// `KeyDown`, for the bound keys: the settings key opens the settings,
    /// else the overlay key flips the overlay.
    pub fn handle_event(
        &mut self,
        event: KeyEvent,
        key_name: &String,
        bindings: &KeyBindings,
    ) -> (r: Vec<UiAction>)
        requires
            old(self).wf(),
        ensures
            final(self).wf(),
            final(self).combo() == old(self).combo(),
            final(self).index() == event_index(
                event,
                old(self).index() as int,
                old(self).step_list().len() as int,
            ),
            final(self).visible() == event_visible(
                event,
                key_name@,
                *bindings,
                old(self).visible(),
            ),
            final(self).handler().entries() == old(self).handler().entries(),
            final(self).handler().threshold() == old(self).handler().threshold(),
            r@ == event_actions(
                event,
                key_name@,
                *bindings,
                old(self).index() as int,
                old(self).step_list().len() as int,
                old(self).visible(),
            ),
    {
        let mut out: Vec<UiAction> = Vec::new();
        match event {
            KeyEvent::TapComplete(_) | KeyEvent::HoldComplete(_) => {
                if self.step_forward() {
                    out.push(UiAction::ComboUpdate);
                }
            },
            KeyEvent::HoldProgress(_, held, threshold) => {
                out.push(UiAction::HoldProgress(held, threshold));
            },
            KeyEvent::KeyDown(key) => {
                if key == Key::Alt || key == Key::AltGr {
                    out.push(UiAction::AltStatus(true));
                }
                if key == Key::RightArrow {
                    if self.step_forward() {
                        out.push(UiAction::ComboUpdate);
                    }
                } else if key == Key::LeftArrow {
                    if self.step_back() {
                        out.push(UiAction::ComboUpdate);
                    }
                }
                if *key_name == bindings.open_settings {
                    out.push(UiAction::OpenSettings);
                } else if *key_name == bindings.toggle_overlay {
                    self.overlay_visible = !self.overlay_visible;
                    out.push(UiAction::OverlayVisibility(self.overlay_visible));
                }
            },
            KeyEvent::KeyUp(key) => {
                if key == Key::Alt || key == Key::AltGr {
                    out.push(UiAction::AltStatus(false));
                }
            },
        }
        proof {
            assert(out@ =~= event_actions(
                event,
                key_name@,
                *bindings,
                old(self).index() as int,
                old(self).step_list().len() as int,
                old(self).visible(),
            ));
        }
        out
    }
}


impl Default for AppState {
    fn default() -> (r: Self)
        ensures
            r.wf(),
            r.combo() is None,
            r.index() == 0,
            r.visible(),
    {
        Self::new()
    }
}

} // verus!
