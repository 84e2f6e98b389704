//! The state of an interactive REPL session and how each message changes it:
//! the input line, the history of inputs and outputs, navigation through
//! earlier inputs and scrolling.

use vstd::prelude::*;
use crate::text::push_str;
use crate::types::repr::show;
use super::engine::CommandResult;

verus! {

/// A history entry in the REPL.
#[derive(Debug)]
pub struct HistoryEntry {
    /// The input line entered by the user.
    pub input: String,
    /// The output produced by evaluation.
    pub output: String,
    /// Whether this was an error.
    pub is_error: bool,
}

/// A history entry as a value.
pub struct EntryV {
    pub input: Seq<char>,
    pub output: Seq<char>,
    pub is_error: bool,
}

impl View for HistoryEntry {
    type V = EntryV;

    open spec fn view(&self) -> EntryV {
        EntryV { input: self.input@, output: self.output@, is_error: self.is_error }
    }
}

/// What the input field reports once it has handled a key.
#[derive(Debug)]
pub enum InputOutcome {
    /// The text of the field changed to the given text
    Changed(String),
    /// The field's text was submitted
    Submitted,
    /// Nothing changed
    Unchanged,
}

/// Messages for the REPL application.
#[derive(Debug)]
pub enum ReplMsg {
    /// Input field message.
    Input(InputOutcome),
    /// Submit the current input.
    Submit,
    /// Navigate to previous command in history (Up arrow).
    HistoryPrev,
    /// Navigate to next command in history (Down arrow).
    HistoryNext,
    /// Scroll output view up (Shift+Up or PageUp).
    ScrollUp,
    /// Scroll output view down (Shift+Down or PageDown).
    ScrollDown,
    /// Clear the screen/history.
    Clear,
    /// Quit the application.
    Quit,
    /// Add a history entry (from external evaluation).
    AddHistory(HistoryEntry),
}

/// A message as a value.
pub enum MsgV {
    Changed(Seq<char>),
    Submitted,
    Unchanged,
    Submit,
    HistoryPrev,
    HistoryNext,
    ScrollUp,
    ScrollDown,
    Clear,
    Quit,
    AddHistory(EntryV),
}

impl View for ReplMsg {
    type V = MsgV;

    open spec fn view(&self) -> MsgV {
        match self {
            ReplMsg::Input(InputOutcome::Changed(s)) => MsgV::Changed(s@),
            ReplMsg::Input(InputOutcome::Submitted) => MsgV::Submitted,
            ReplMsg::Input(InputOutcome::Unchanged) => MsgV::Unchanged,
            ReplMsg::Submit => MsgV::Submit,
            ReplMsg::HistoryPrev => MsgV::HistoryPrev,
            ReplMsg::HistoryNext => MsgV::HistoryNext,
            ReplMsg::ScrollUp => MsgV::ScrollUp,
            ReplMsg::ScrollDown => MsgV::ScrollDown,
            ReplMsg::Clear => MsgV::Clear,
            ReplMsg::Quit => MsgV::Quit,
            ReplMsg::AddHistory(e) => MsgV::AddHistory(e@),
        }
    }
}

/// The REPL application state.
#[derive(Debug)]
pub struct ReplState {
    /// The text of the input field.
    input: String,
    /// History of inputs and outputs.
    history: Vec<HistoryEntry>,
    /// Current scroll position in history (0 = bottom).
    scroll_offset: usize,
    /// Whether the application should quit.
    should_quit: bool,
    /// Input waiting to be evaluated.
    pending_eval: Option<String>,
    /// Current position in command history for Up/Down navigation.
    /// None means we're at the current (new) input position.
    history_nav_index: Option<usize>,
    /// Saved input before starting history navigation.
    saved_input: String,
}

/// The state as a value.
pub struct StateV {
    pub input: Seq<char>,
    pub history: Seq<EntryV>,
    pub scroll: nat,
    pub quit: bool,
    pub pending: Option<Seq<char>>,
    pub nav: Option<nat>,
    pub saved: Seq<char>,
}

impl View for ReplState {
    type V = StateV;

    closed spec fn view(&self) -> StateV {
        StateV {
            input: self.input@,
            history: self.history@.map_values(|e: HistoryEntry| e@),
            scroll: self.scroll_offset as nat,
            quit: self.should_quit,
            pending: match self.pending_eval {
                Some(s) => Some(s@),
                None => None,
            },
            nav: match self.history_nav_index {
                Some(i) => Some(i as nat),
                None => None,
            },
            saved: self.saved_input@,
        }
    }
}

/// A usable state: navigation points into the history and the view is scrolled
/// no further up than its oldest entry.
pub open spec fn state_ok(s: StateV) -> bool {
    &&& (s.nav matches Some(i) ==> i < s.history.len())
    &&& (s.scroll == 0 || s.scroll < s.history.len())
}

/// The state after a message, and the message that it gives rise to, if any.
pub open spec fn step(s: StateV, m: MsgV) -> (StateV, Option<MsgV>) {
    match m {
        // The field's text was submitted: submit it
        MsgV::Submitted => (s, Some(MsgV::Submit)),
        // Typing stops any navigation through the history
        MsgV::Changed(v) => (StateV { input: v, nav: None, saved: Seq::empty(), ..s }, None),
        MsgV::Unchanged => (s, None),
        MsgV::Submit => if s.input.len() > 0 {
            (StateV { pending: Some(s.input), input: Seq::empty(), nav: None, saved: Seq::empty(), ..s }, None)
        } else {
            (s, None)
        },
        MsgV::HistoryPrev => if s.history.len() == 0 {
            (s, None)
        } else {
            match s.nav {
                // Start at the newest entry, keeping what was typed
                None => {
                    let i = (s.history.len() - 1) as nat;
                    (StateV { saved: s.input, nav: Some(i), input: s.history[i as int].input, ..s }, None)
                },
                Some(i) => if i > 0 {
                    let j = (i - 1) as nat;
                    (StateV { nav: Some(j), input: s.history[j as int].input, ..s }, None)
                } else {
                    (s, None)
                },
            }
        },
        MsgV::HistoryNext => match s.nav {
            None => (s, None),
            Some(i) => if i + 1 < s.history.len() {
                let j = i + 1;
                (StateV { nav: Some(j), input: s.history[j as int].input, ..s }, None)
            } else {
                // Past the newest entry: back to what was typed
                (StateV { nav: None, input: s.saved, saved: Seq::empty(), ..s }, None)
            },
        },
        MsgV::ScrollUp => {
            let max_scroll: nat = if s.history.len() > 0 { (s.history.len() - 1) as nat } else { 0 };
            (StateV { scroll: if s.scroll + 1 < max_scroll { s.scroll + 1 } else { max_scroll }, ..s }, None)
        },
        MsgV::ScrollDown => (StateV { scroll: if s.scroll > 0 { (s.scroll - 1) as nat } else { 0 }, ..s }, None),
        MsgV::Clear => (StateV { history: Seq::empty(), scroll: 0, nav: None, saved: Seq::empty(), ..s }, None),
        MsgV::Quit => (StateV { quit: true, ..s }, None),
        MsgV::AddHistory(e) => if e.output == "QUIT"@ {
            (StateV { quit: true, ..s }, None)
        } else {
            (StateV { history: s.history.push(e), scroll: 0, ..s }, None)
        },
    }
}

impl ReplState {
    /// The state is usable.
    pub closed spec fn wf(&self) -> bool {
        state_ok(self@)
    }

    /// A fresh session: nothing typed, no history.
    pub fn new() -> (r: Self)
        ensures
            r.wf(),
            r@.input == Seq::<char>::empty(),
            r@.history == Seq::<EntryV>::empty(),
            r@.scroll == 0,
            !r@.quit,
            r@.pending is None,
            r@.nav is None,
            r@.saved == Seq::<char>::empty(),
    {
        let r = ReplState {
            input: String::new(),
            history: Vec::new(),
            scroll_offset: 0,
            should_quit: false,
            pending_eval: None,
            history_nav_index: None,
            saved_input: String::new(),
        };
        assert(r@.history =~= Seq::<EntryV>::empty());
        assert(r@.input =~= Seq::<char>::empty());
        assert(r@.saved =~= Seq::<char>::empty());
        r
    }

    /// The text of the input field.
    pub fn input(&self) -> (s: &str)
        ensures
            s@ == self@.input,
    {
        self.input.as_str()
    }

    /// The history of inputs and outputs, oldest first.
    pub fn history(&self) -> (h: &Vec<HistoryEntry>)
        ensures
            h@.map_values(|e: HistoryEntry| e@) == self@.history,
    {
        &self.history
    }

    /// How far the output view is scrolled up from the bottom.
    pub fn scroll_offset(&self) -> (n: usize)
        ensures
            n == self@.scroll,
    {
        self.scroll_offset
    }

    /// Whether the application should quit.
    pub fn should_quit(&self) -> (b: bool)
        ensures
            b == self@.quit,
    {
        self.should_quit
    }

    /// Take the input waiting to be evaluated, if any.
    pub fn take_pending(&mut self) -> (r: Option<String>)
        ensures
            match r {
                Some(s) => old(self)@.pending == Some(s@),
                None => old(self)@.pending is None,
            },
            final(self)@ == (StateV { pending: None, ..old(self)@ }),
            final(self).wf() == old(self).wf(),
    {
        let mut taken: Option<String> = None;
        std::mem::swap(&mut taken, &mut self.pending_eval);
        taken
    }

    /// Handle one message. The result is a message to handle next, if any.
    pub fn update(&mut self, msg: ReplMsg) -> (r: Option<ReplMsg>)
        requires
            old(self).wf(),
        ensures
            final(self).wf(),
            final(self)@ == step(old(self)@, msg@).0,
            match step(old(self)@, msg@).1 {
                Some(m) => r matches Some(x) && x@ == m,
                None => r is None,
            },
    {
        let ghost s0 = self@;
        match msg {
            ReplMsg::Input(outcome) => match outcome {
                InputOutcome::Submitted => {
                    return Some(ReplMsg::Submit);
                },
                InputOutcome::Changed(value) => {
                    // Reset history navigation when user types
                    self.input = value;
                    self.history_nav_index = None;
                    self.saved_input = String::new();
                },
                InputOutcome::Unchanged => {},
            },
            ReplMsg::Submit => {
                if !self.input.as_str().is_empty() {
                    // Store the input for processing by the external loop
                    let mut taken = String::new();
                    std::mem::swap(&mut taken, &mut self.input);
                    self.pending_eval = Some(taken);
                    // Reset history navigation
                    self.history_nav_index = None;
                    self.saved_input = String::new();
                }
            },
            ReplMsg::HistoryPrev => {
                if self.history.len() == 0 {
                    return None;
                }
                match self.history_nav_index {
                    None => {
                        // Starting navigation - save current input and go to last history item
                        let mut typed = String::new();
                        std::mem::swap(&mut typed, &mut self.input);
                        self.saved_input = typed;
                        let idx = self.history.len() - 1;
                        self.history_nav_index = Some(idx);
                        self.input = self.history[idx].input.clone();
                    },
                    Some(idx) => {
                        if idx > 0 {
                            // Go to previous (older) item
                            let new_idx = idx - 1;
                            self.history_nav_index = Some(new_idx);
                            self.input = self.history[new_idx].input.clone();
                        }
                        // Already at oldest item, do nothing
                    },
                }
            },
            ReplMsg::HistoryNext => {
                match self.history_nav_index {
                    None => {},
                    Some(idx) => {
                        if idx < self.history.len() - 1 {
                            // Go to next (newer) item
                            let new_idx = idx + 1;
                            self.history_nav_index = Some(new_idx);
                            self.input = self.history[new_idx].input.clone();
                        } else {
                            // At newest history item, go back to saved input
                            self.history_nav_index = None;
                            let mut saved = String::new();
                            std::mem::swap(&mut saved, &mut self.saved_input);
                            self.input = saved;
                        }
                    },
                }
            },
            ReplMsg::ScrollUp => {
                let max_scroll = if self.history.len() > 0 { self.history.len() - 1 } else { 0 };
                self.scroll_offset = if self.scroll_offset < max_scroll { self.scroll_offset + 1 } else { max_scroll };
            },
            ReplMsg::ScrollDown => {
                self.scroll_offset = if self.scroll_offset > 0 { self.scroll_offset - 1 } else { 0 };
            },
            ReplMsg::Clear => {
                self.history = Vec::new();
                self.scroll_offset = 0;
                self.history_nav_index = None;
                self.saved_input = String::new();
            },
            ReplMsg::Quit => {
                self.should_quit = true;
            },
            ReplMsg::AddHistory(entry) => {
                // Check for quit command
                proof { reveal_strlit("QUIT"); }
                if same_text(&entry.output, "QUIT") {
                    self.should_quit = true;
                } else {
                    let ghost e = entry@;
                    let ghost before = self.history@;
                    self.history.push(entry);
                    assert(self.history@.map_values(|e: HistoryEntry| e@) =~= before.map_values(|e: HistoryEntry| e@).push(e));
                    // Scroll to bottom
                    self.scroll_offset = 0;
                }
            },
        }
        proof {
            let s1 = self@;
            assert(s1.input =~= step(s0, msg@).0.input);
            assert(s1.saved =~= step(s0, msg@).0.saved);
            assert(s1.history =~= step(s0, msg@).0.history);
        }
        None
    }
}

fn same_text(a: &String, text: &str) -> (b: bool)
    ensures
        b == (a@ == text@),
{
    let t = text.to_owned();
    *a == t
}

// ========== Laws ==========

/// Law: every message keeps a session usable.
pub proof fn law_step_keeps_state_ok(s: StateV, m: MsgV)
    requires
        state_ok(s),
    ensures
        state_ok(step(s, m).0),
{
}

/// Law: stepping back into the history and forward again, from a line being
/// typed, gives back the typed line and ends the navigation.
pub proof fn law_history_prev_next_restores_input(s: StateV)
    requires
        state_ok(s),
        s.nav is None,
        s.history.len() > 0,
    ensures
        step(step(s, MsgV::HistoryPrev).0, MsgV::HistoryNext).0.input == s.input,
        step(step(s, MsgV::HistoryPrev).0, MsgV::HistoryNext).0.nav is None,
        step(step(s, MsgV::HistoryPrev).0, MsgV::HistoryNext).0.history == s.history,
{
}

/// Law: a submitted line waits for evaluation, and the field is emptied.
pub proof fn law_submit_queues_input(s: StateV)
    requires
        s.input.len() > 0,
    ensures
        step(s, MsgV::Submit).0.pending == Some(s.input),
        step(s, MsgV::Submit).0.input.len() == 0,
{
}

// ========== History entries for commands ==========

/// The history entry that a command's result gives for the input line.
pub open spec fn command_entry(input: Seq<char>, r: CommandResult) -> EntryV {
    match r {
        CommandResult::Quit => EntryV { input, output: "QUIT"@, is_error: false },
        CommandResult::Help(text) => EntryV { input, output: text@, is_error: false },
        CommandResult::Cleared => EntryV { input, output: "Environment cleared."@, is_error: false },
        CommandResult::TypeOf { ty } => EntryV { input, output: show(ty@), is_error: false },
        CommandResult::Unknown { cmd } => EntryV { input, output: cmd@, is_error: true },
    }
}

/// The history entry for a command line and its result.
pub fn command_history_entry(input: &str, result: CommandResult) -> (e: HistoryEntry)
    ensures
        e@ == command_entry(input@, result),
{
    let line = input.to_owned();
    match result {
        CommandResult::Quit => HistoryEntry { input: line, output: "QUIT".to_owned(), is_error: false },
        CommandResult::Help(text) => HistoryEntry { input: line, output: text, is_error: false },
        CommandResult::Cleared => HistoryEntry {
            input: line,
            output: "Environment cleared.".to_owned(),
            is_error: false,
        },
        CommandResult::TypeOf { ty } => HistoryEntry { input: line, output: ty.to_string(), is_error: false },
        CommandResult::Unknown { cmd } => HistoryEntry { input: line, output: cmd, is_error: true },
    }
}

} // verus!
