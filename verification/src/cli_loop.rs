//! The interactive prompt as a state machine.
//!
//! Three actors share one [`CtrlCState`]: the line reader, which owns the
//! terminal and sees the interrupt key; the expiry ticker, which clears a
//! stale "press again" banner; and the dispatcher, which reads commands and
//! runs at most one of them at a time. Each actor holds the state only for
//! one of the steps below, and acts on what the step returns.
//!
//! Time is a count of units on a clock that never runs backwards; the
//! caller chooses the unit.

use crate::command::{parse_command, parsed_command, Command, CommandModel, ParseError, ParseErrorModel};
use crate::text::{blank, contains, contains_text, is_blank, text_is, to_chars};
use crate::tokenizer::{parse_quoted_args, tokens};
use vstd::prelude::*;

verus! {

/// What the line reader hands to the dispatcher.
#[derive(Debug)]
pub enum InputEvent {
    /// A line that the user entered.
    Command(String),
    /// The interrupt key was pressed.
    CtrlC,
    /// The input has ended.
    Exit,
}

/// What an [`InputEvent`] is, over plain texts.
pub enum InputEventModel {
    Command(Seq<char>),
    CtrlC,
    Exit,
}

impl View for InputEvent {
    type V = InputEventModel;

    open spec fn view(&self) -> InputEventModel {
        match *self {
            InputEvent::Command(line) => InputEventModel::Command(line@),
            InputEvent::CtrlC => InputEventModel::CtrlC,
            InputEvent::Exit => InputEventModel::Exit,
        }
    }
}

/// What the line reader does after the interrupt key.
#[derive(Debug, Clone, Copy, PartialEq, Eq, Structural)]
pub enum KeyAction {
    /// A command is running: hand the interrupt to the dispatcher, no more.
    Forward,
    /// Show the "press again" banner, then hand the interrupt on.
    ShowBanner,
    /// Second press within the time allowed: end the process at once.
    ForceExit,
}

/// What the line reader does with a line that was entered.
#[derive(Debug, Clone, Copy, PartialEq, Eq, Structural)]
pub enum LineAction {
    /// The banner was showing: it is cleared, and the line is dropped.
    Discard,
    /// Record the line in the history and hand it to the dispatcher.
    Forward,
}

/// The time between `last` and `now`; nothing where `now` is the earlier.
pub open spec fn elapsed(now: u64, last: u64) -> nat {
    if now >= last {
        (now - last) as nat
    } else {
        0
    }
}

/// The state that the three actors share, as plain values.
pub struct InterruptModel {
    /// When the interrupt key was last pressed with no command running.
    pub last_time: Option<u64>,
    /// Whether the "press again" banner is on the screen.
    pub showing_message: bool,
    /// Whether a command is running.
    pub command_in_progress: bool,
    /// Whether the running command was asked to stop.
    pub interrupt_command: bool,
}

impl InterruptModel {
    /// The banner and the time of the press that raised it come and go
    /// together, and only a running command can be asked to stop.
    pub open spec fn wf(self) -> bool {
        &&& self.showing_message <==> self.last_time is Some
        &&& self.interrupt_command ==> self.command_in_progress
    }

    /// The state at the start: nothing pressed, nothing showing, nothing running.
    pub open spec fn initial() -> InterruptModel {
        InterruptModel {
            last_time: None,
            showing_message: false,
            command_in_progress: false,
            interrupt_command: false,
        }
    }

    /// Whether the reader shows no prompt before it reads: a command is
    /// running or was asked to stop, or the banner is showing.
    pub open spec fn prompt_hidden(self) -> bool {
        self.interrupt_command || self.command_in_progress || self.showing_message
    }

    /// Whether a press at `now` comes less than `timeout` after the last one.
    pub open spec fn pressed_recently(self, now: u64, timeout: u64) -> bool {
        self.last_time matches Some(last) && elapsed(now, last) < timeout
    }

    /// The interrupt key at time `now`. While a command runs nothing
    /// changes. Otherwise a press less than `timeout` after the last one
    /// forces the exit, and any other press is remembered and raises the
    /// banner.
    pub open spec fn key_pressed(self, now: u64, timeout: u64) -> (InterruptModel, KeyAction) {
        if self.command_in_progress {
            (self, KeyAction::Forward)
        } else if self.pressed_recently(now, timeout) {
            (self, KeyAction::ForceExit)
        } else {
            (
                InterruptModel { last_time: Some(now), showing_message: true, ..self },
                KeyAction::ShowBanner,
            )
        }
    }

    /// A line was entered. With the banner showing, the banner goes and the
    /// line with it; else the line is handed on and nothing changes.
    pub open spec fn line_entered(self) -> (InterruptModel, LineAction) {
        if self.showing_message {
            (
                InterruptModel { last_time: None, showing_message: false, ..self },
                LineAction::Discard,
            )
        } else {
            (self, LineAction::Forward)
        }
    }

    /// Whether the banner is showing and more than `timeout` has passed
    /// since the press that raised it.
    pub open spec fn banner_stale(self, now: u64, timeout: u64) -> bool {
        &&& self.showing_message
        &&& self.last_time matches Some(last)
        &&& elapsed(now, last) > timeout
    }

    /// A tick of the expiry ticker at time `now`: a stale banner goes.
    pub open spec fn ticked(self, now: u64, timeout: u64) -> InterruptModel {
        if self.banner_stale(now, timeout) {
            InterruptModel { last_time: None, showing_message: false, ..self }
        } else {
            self
        }
    }

    /// A command starts: it is in progress, and not asked to stop.
    pub open spec fn started(self) -> InterruptModel {
        InterruptModel { command_in_progress: true, interrupt_command: false, ..self }
    }

    /// The command has ended: none is in progress, none asked to stop.
    pub open spec fn finished(self) -> InterruptModel {
        InterruptModel { command_in_progress: false, interrupt_command: false, ..self }
    }

    /// The running command, if there is one, is asked to stop.
    pub open spec fn interrupt_requested(self) -> InterruptModel {
        if self.command_in_progress {
            InterruptModel { interrupt_command: true, ..self }
        } else {
            self
        }
    }
}

/// The state that the line reader, the expiry ticker and the dispatcher
/// share. It is reached through its methods only, which keep it well formed.
#[derive(Debug, Clone, Copy)]
pub struct CtrlCState {
    last_time: Option<u64>,
    showing_message: bool,
    command_in_progress: bool,
    interrupt_command: bool,
}

impl View for CtrlCState {
    type V = InterruptModel;

    closed spec fn view(&self) -> InterruptModel {
        InterruptModel {
            last_time: self.last_time,
            showing_message: self.showing_message,
            command_in_progress: self.command_in_progress,
            interrupt_command: self.interrupt_command,
        }
    }
}

impl CtrlCState {
    #[verifier::type_invariant]
    spec fn well_formed(self) -> bool {
        self@.wf()
    }

    /// The state at the start: nothing pressed, nothing showing, nothing running.
    pub fn new() -> (state: Self)
        ensures
            state@ == InterruptModel::initial(),
            state@.wf(),
    {
        Self {
            last_time: None,
            showing_message: false,
            command_in_progress: false,
            interrupt_command: false,
        }
    }

    /// The state is well formed, whatever was done with it.
    pub fn well_formed_always(&self)
        ensures
            self@.wf(),
    {
        proof {
            use_type_invariant(self);
        }
    }

    /// When the interrupt key was last pressed with no command running, if
    /// the banner it raised is still showing.
    pub fn last_time(&self) -> (r: Option<u64>)
        ensures
            r == self@.last_time,
    {
        self.last_time
    }

    /// Whether the "press again" banner is on the screen.
    pub fn showing_message(&self) -> (r: bool)
        ensures
            r == self@.showing_message,
    {
        self.showing_message
    }

    /// Whether a command is running.
    pub fn command_in_progress(&self) -> (r: bool)
        ensures
            r == self@.command_in_progress,
    {
        self.command_in_progress
    }

    /// Whether the running command was asked to stop. A command looks here
    /// between its steps, and ends early where it finds `true`.
    pub fn interrupt_command(&self) -> (r: bool)
        ensures
            r == self@.interrupt_command,
    {
        self.interrupt_command
    }

    /// Line reader, before each read: whether to show no prompt and hide the
    /// cursor.
    pub fn prompt_hidden(&self) -> (r: bool)
        ensures
            r == self@.prompt_hidden(),
    {
        self.interrupt_command || self.command_in_progress || self.showing_message
    }

    /// Line reader, on the interrupt key at time `now`.
    pub fn key_pressed(&mut self, now: u64, timeout: u64) -> (action: KeyAction)
        ensures
            (final(self)@, action) == old(self)@.key_pressed(now, timeout),
            final(self)@.wf(),
    {
        proof {
            use_type_invariant(&*self);
        }
        if self.command_in_progress {
            return KeyAction::Forward;
        }
        let recent = match self.last_time {
            Some(last) => now >= last && now - last < timeout || now < last && 0 < timeout,
            None => false,
        };
        if recent {
            KeyAction::ForceExit
        } else {
            *self = CtrlCState {
                last_time: Some(now),
                showing_message: true,
                command_in_progress: false,
                interrupt_command: self.interrupt_command,
            };
            KeyAction::ShowBanner
        }
    }

    /// Line reader, on a line that was entered.
    pub fn line_entered(&mut self) -> (action: LineAction)
        ensures
            (final(self)@, action) == old(self)@.line_entered(),
            final(self)@.wf(),
    {
        proof {
            use_type_invariant(&*self);
        }
        if self.showing_message {
            *self = CtrlCState {
                last_time: None,
                showing_message: false,
                command_in_progress: self.command_in_progress,
                interrupt_command: self.interrupt_command,
            };
            LineAction::Discard
        } else {
            LineAction::Forward
        }
    }

    /// Expiry ticker, on each tick: clears a stale banner, and says whether
    /// it did, so that the prompt is drawn again.
    pub fn tick(&mut self, now: u64, timeout: u64) -> (cleared: bool)
        ensures
            final(self)@ == old(self)@.ticked(now, timeout),
            cleared == old(self)@.banner_stale(now, timeout),
            final(self)@.wf(),
    {
        proof {
            use_type_invariant(&*self);
        }
        let stale = self.showing_message && match self.last_time {
            Some(last) => now >= last && now - last > timeout,
            None => false,
        };
        if stale {
            *self = CtrlCState {
                last_time: None,
                showing_message: false,
                command_in_progress: self.command_in_progress,
                interrupt_command: self.interrupt_command,
            };
        }
        stale
    }

    /// Dispatcher: a command starts.
    pub fn command_started(&mut self)
        ensures
            final(self)@ == old(self)@.started(),
            final(self)@.wf(),
    {
        proof {
            use_type_invariant(&*self);
        }
        *self = CtrlCState {
            last_time: self.last_time,
            showing_message: self.showing_message,
            command_in_progress: true,
            interrupt_command: false,
        };
    }

    /// Dispatcher: the command has ended, or was turned away.
    pub fn command_finished(&mut self)
        ensures
            final(self)@ == old(self)@.finished(),
            final(self)@.wf(),
    {
        proof {
            use_type_invariant(&*self);
        }
        *self = CtrlCState {
            last_time: self.last_time,
            showing_message: self.showing_message,
            command_in_progress: false,
            interrupt_command: false,
        };
    }

    /// Dispatcher: the interrupt key was pressed. The running command, if
    /// there is one, is asked to stop; it is not stopped.
    pub fn request_interrupt(&mut self)
        ensures
            final(self)@ == old(self)@.interrupt_requested(),
            final(self)@.wf(),
    {
        proof {
            use_type_invariant(&*self);
        }
        if self.command_in_progress {
            *self = CtrlCState {
                last_time: self.last_time,
                showing_message: self.showing_message,
                command_in_progress: true,
                interrupt_command: true,
            };
        }
    }
}

/// What the dispatcher does after an event.
#[derive(Debug)]
pub enum Dispatch {
    /// Nothing: a blank line, a line without arguments, or an interrupt
    /// while no command runs.
    Ignore,
    /// Start this command; the state already says that it runs.
    Run(Command),
    /// Show the help text and draw the prompt again.
    Help,
    /// Report why the line is no command, and draw the prompt again.
    Reject(ParseError),
    /// Say goodbye and leave the loop.
    Goodbye,
    /// The input channel is closed: say so and leave the loop.
    Closed,
    /// The running command was asked to stop; go on waiting for it.
    Interrupt,
    /// A command is running: the line is dropped, not queued.
    Busy,
}

/// What a [`Dispatch`] is, over plain texts.
pub enum DispatchModel {
    Ignore,
    Run(CommandModel),
    Help,
    Reject(ParseErrorModel),
    Goodbye,
    Closed,
    Interrupt,
    Busy,
}

impl View for Dispatch {
    type V = DispatchModel;

    open spec fn view(&self) -> DispatchModel {
        match *self {
            Dispatch::Ignore => DispatchModel::Ignore,
            Dispatch::Run(command) => DispatchModel::Run(command@),
            Dispatch::Help => DispatchModel::Help,
            Dispatch::Reject(fault) => DispatchModel::Reject(fault@),
            Dispatch::Goodbye => DispatchModel::Goodbye,
            Dispatch::Closed => DispatchModel::Closed,
            Dispatch::Interrupt => DispatchModel::Interrupt,
            Dispatch::Busy => DispatchModel::Busy,
        }
    }
}

impl Dispatch {
    /// Whether the dispatcher leaves its loop after this.
    pub fn leaves(&self) -> (r: bool)
        ensures
            r == (self@ is Goodbye || self@ is Closed),
    {
        match self {
            Dispatch::Goodbye => true,
            Dispatch::Closed => true,
            _ => false,
        }
    }
}

/// The event that the dispatcher met: one from the reader, or none where
/// the channel is closed.
pub open spec fn event_model(event: Option<InputEvent>) -> Option<InputEventModel> {
    match event {
        Some(e) => Some(e@),
        None => None,
    }
}

/// The dispatcher on the line `line` while no command runs. A blank line
/// and a line without arguments are passed over. A line that the grammar
/// reads starts its command. Of the others `help`, `exit` and `quit` are
/// served, and the rest is turned away; none of these changes the state.
pub open spec fn line_dispatched(state: InterruptModel, line: Seq<char>) -> (
    InterruptModel,
    DispatchModel,
) {
    if blank(line) || tokens(line).len() == 0 {
        (state, DispatchModel::Ignore)
    } else {
        match parsed_command(tokens(line)) {
            Ok(command) => (state.started(), DispatchModel::Run(command)),
            Err(fault) => if line == "help"@ {
                (state, DispatchModel::Help)
            } else if line == "exit"@ || line == "quit"@ {
                (state, DispatchModel::Goodbye)
            } else {
                (state, DispatchModel::Reject(fault))
            },
        }
    }
}

/// The dispatcher on one event: the state after it, and what to do.
///
/// The end of the input and a closed channel end the loop, whether a
/// command runs or not. The interrupt key asks a running command to stop and
/// is passed over otherwise. A line is read where no command runs, and
/// dropped where one does.
pub open spec fn dispatched(state: InterruptModel, event: Option<InputEventModel>) -> (
    InterruptModel,
    DispatchModel,
) {
    match event {
        None => (state, DispatchModel::Closed),
        Some(InputEventModel::Exit) => (state, DispatchModel::Goodbye),
        Some(InputEventModel::CtrlC) => if state.command_in_progress {
            (state.interrupt_requested(), DispatchModel::Interrupt)
        } else {
            (state, DispatchModel::Ignore)
        },
        Some(InputEventModel::Command(line)) => if state.command_in_progress {
            (state, DispatchModel::Busy)
        } else {
            line_dispatched(state, line)
        },
    }
}

fn dispatch_line(state: &mut CtrlCState, line: &String) -> (r: Dispatch)
    requires
        !old(state)@.command_in_progress,
    ensures
        (final(state)@, r@) == line_dispatched(old(state)@, line@),
        final(state)@.wf(),
{
    proof {
        use_type_invariant(&*state);
    }
    let text = to_chars(line.as_str());
    if is_blank(&text) {
        return Dispatch::Ignore;
    }
    let args = parse_quoted_args(line.as_str());
    if args.len() == 0 {
        return Dispatch::Ignore;
    }
    match parse_command(&args) {
        Ok(command) => {
            state.command_started();
            Dispatch::Run(command)
        },
        Err(fault) => {
            if text_is(&text, "help") {
                Dispatch::Help
            } else if text_is(&text, "exit") || text_is(&text, "quit") {
                Dispatch::Goodbye
            } else {
                Dispatch::Reject(fault)
            }
        },
    }
}

/// Dispatcher, on each event from the reader; `None` where the channel is
/// closed. Returns what to do, with the state already brought up to date.
pub fn dispatch(state: &mut CtrlCState, event: Option<InputEvent>) -> (r: Dispatch)
    ensures
        (final(state)@, r@) == dispatched(old(state)@, event_model(event)),
        final(state)@.wf(),
{
    proof {
        use_type_invariant(&*state);
    }
    match event {
        None => Dispatch::Closed,
        Some(InputEvent::Exit) => Dispatch::Goodbye,
        Some(InputEvent::CtrlC) => {
            if state.command_in_progress() {
                state.request_interrupt();
                Dispatch::Interrupt
            } else {
                Dispatch::Ignore
            }
        },
        Some(InputEvent::Command(line)) => {
            if state.command_in_progress() {
                Dispatch::Busy
            } else {
                dispatch_line(state, &line)
            }
        },
    }
}

/// How a command ended.
#[derive(Debug)]
pub enum Outcome {
    /// It ran to its end; the prompt goes on.
    Continue,
    /// It ran to its end and asks the prompt to stop.
    Stop,
    /// It saw that it was asked to stop, and did.
    Interrupted,
    /// It failed, with this message.
    Failed(String),
    /// Its task broke off without a result.
    TaskFailed,
}

/// What an [`Outcome`] is, over plain texts.
pub enum OutcomeModel {
    Continue,
    Stop,
    Interrupted,
    Failed(Seq<char>),
    TaskFailed,
}

impl View for Outcome {
    type V = OutcomeModel;

    open spec fn view(&self) -> OutcomeModel {
        match *self {
            Outcome::Continue => OutcomeModel::Continue,
            Outcome::Stop => OutcomeModel::Stop,
            Outcome::Interrupted => OutcomeModel::Interrupted,
            Outcome::Failed(message) => OutcomeModel::Failed(message@),
            Outcome::TaskFailed => OutcomeModel::TaskFailed,
        }
    }
}

/// What the dispatcher does when the command has ended.
#[derive(Debug, Clone, Copy, PartialEq, Eq, Structural)]
pub enum Completion {
    /// Draw the prompt again.
    Resume,
    /// Leave the loop.
    Leave,
    /// Say that the command was interrupted, and draw the prompt again.
    Interrupted,
    /// Report the failure of the command, and draw the prompt again.
    Failed,
    /// Report that the task of the command broke off, and draw the prompt again.
    TaskFailed,
}

/// What the dispatcher does when a command ends as `outcome` says. A
/// failure whose message holds the word `interrupted` counts as an
/// interruption.
pub open spec fn completion(outcome: OutcomeModel) -> Completion {
    match outcome {
        OutcomeModel::Continue => Completion::Resume,
        OutcomeModel::Stop => Completion::Leave,
        OutcomeModel::Interrupted => Completion::Interrupted,
        OutcomeModel::Failed(message) => if contains_text(message, "interrupted"@) {
            Completion::Interrupted
        } else {
            Completion::Failed
        },
        OutcomeModel::TaskFailed => Completion::TaskFailed,
    }
}

/// Dispatcher, when the command has ended: the state goes back to idle
/// however it ended, and the result says what to do.
pub fn complete(state: &mut CtrlCState, outcome: &Outcome) -> (r: Completion)
    ensures
        final(state)@ == old(state)@.finished(),
        final(state)@.wf(),
        r == completion(outcome@),
{
    state.command_finished();
    proof {
        use_type_invariant(&*state);
    }
    match outcome {
        Outcome::Continue => Completion::Resume,
        Outcome::Stop => Completion::Leave,
        Outcome::Interrupted => Completion::Interrupted,
        Outcome::Failed(message) => {
            let text = to_chars(message.as_str());
            let word = to_chars("interrupted");
            if contains(&text, &word) {
                Completion::Interrupted
            } else {
                Completion::Failed
            }
        },
        Outcome::TaskFailed => Completion::TaskFailed,
    }
}

/// A blank line, and a line without arguments, start no command and leave
/// the shared state as it was.
pub proof fn lemma_empty_line_changes_nothing(state: InterruptModel, line: Seq<char>)
    requires
        blank(line) || tokens(line).len() == 0,
    ensures
        dispatched(state, Some(InputEventModel::Command(line))).0 == state,
        !(dispatched(state, Some(InputEventModel::Command(line))).1 is Run),
{
}

/// While a command runs, no event starts another.
pub proof fn lemma_busy_starts_nothing(state: InterruptModel, event: Option<InputEventModel>)
    requires
        state.command_in_progress,
    ensures
        !(dispatched(state, event).1 is Run),
        dispatched(state, event).0.command_in_progress,
{
}

/// Each actor keeps to its own part of the state: the reader and the ticker
/// change nothing of the running command, and the dispatcher changes nothing
/// of the banner.
pub proof fn lemma_actors_keep_to_their_parts(
    state: InterruptModel,
    now: u64,
    timeout: u64,
    event: Option<InputEventModel>,
)
    ensures
        state.key_pressed(now, timeout).0.command_in_progress == state.command_in_progress,
        state.key_pressed(now, timeout).0.interrupt_command == state.interrupt_command,
        state.line_entered().0.command_in_progress == state.command_in_progress,
        state.line_entered().0.interrupt_command == state.interrupt_command,
        state.ticked(now, timeout).command_in_progress == state.command_in_progress,
        state.ticked(now, timeout).interrupt_command == state.interrupt_command,
        dispatched(state, event).0.last_time == state.last_time,
        dispatched(state, event).0.showing_message == state.showing_message,
        state.finished().last_time == state.last_time,
        state.finished().showing_message == state.showing_message,
{
}

/// One step of one of the three actors.
pub enum Step {
    /// The dispatcher meets an event, or finds the channel closed.
    Event(Option<InputEventModel>),
    /// The dispatcher sees the running command end.
    Ended(OutcomeModel),
    /// The reader sees the interrupt key at time `now`.
    Key { now: u64, timeout: u64 },
    /// The reader sees a line.
    Line,
    /// The ticker ticks at time `now`.
    Tick { now: u64, timeout: u64 },
}

/// The shared state together with the number of commands that are running.
pub struct Session {
    pub state: InterruptModel,
    pub running: nat,
}

impl Session {
    /// The session at the start: the initial state, and nothing running.
    pub open spec fn initial() -> Session {
        Session { state: InterruptModel::initial(), running: 0 }
    }

    /// The session after one step. A command that the dispatcher starts
    /// runs until the dispatcher sees it end; an end that is reported while
    /// nothing runs changes nothing.
    pub open spec fn after(self, step: Step) -> Session {
        match step {
            Step::Event(event) => {
                let (state, action) = dispatched(self.state, event);
                Session {
                    state,
                    running: if action is Run {
                        self.running + 1
                    } else {
                        self.running
                    },
                }
            },
            Step::Ended(outcome) => if self.running > 0 {
                Session { state: self.state.finished(), running: (self.running - 1) as nat }
            } else {
                self
            },
            Step::Key { now, timeout } => Session {
                state: self.state.key_pressed(now, timeout).0,
                ..self
            },
            Step::Line => Session { state: self.state.line_entered().0, ..self },
            Step::Tick { now, timeout } => Session { state: self.state.ticked(now, timeout), ..self },
        }
    }

    /// The session after the steps `steps`, taken in order.
    pub open spec fn after_all(self, steps: Seq<Step>) -> Session
        decreases steps.len(),
    {
        if steps.len() == 0 {
            self
        } else {
            self.after_all(steps.drop_last()).after(steps.last())
        }
    }

    /// The state is well formed, and a command runs exactly when the state
    /// says that one is in progress.
    pub open spec fn consistent(self) -> bool {
        &&& self.state.wf()
        &&& self.running == if self.state.command_in_progress {
            1nat
        } else {
            0nat
        }
    }
}

/// Every step keeps a consistent session consistent.
pub proof fn lemma_step_keeps_consistent(session: Session, step: Step)
    requires
        session.consistent(),
    ensures
        session.after(step).consistent(),
{
}

/// At most one command runs at any time: after any steps of the three
/// actors, in any order, from the start, the state is well formed, one
/// command runs where the state says that a command is in progress, and
/// none runs where it does not.
pub proof fn lemma_at_most_one_command_runs(steps: Seq<Step>)
    ensures
        Session::initial().after_all(steps).consistent(),
        Session::initial().after_all(steps).running <= 1,
    decreases steps.len(),
{
    if steps.len() > 0 {
        lemma_at_most_one_command_runs(steps.drop_last());
        lemma_step_keeps_consistent(Session::initial().after_all(steps.drop_last()), steps.last());
    }
}

/// The second press of the interrupt key. With no command running, let a
/// press at `first` raise the banner. A press at `second` less than
/// `timeout` later forces the exit. A press at `second` that comes `timeout`
/// or more later does not: it is remembered in place of the first, and the
/// banner shows again.
pub proof fn lemma_second_press(state: InterruptModel, first: u64, second: u64, timeout: u64)
    requires
        !state.command_in_progress,
        !state.pressed_recently(first, timeout),
        first <= second,
    ensures
        state.key_pressed(first, timeout).1 == KeyAction::ShowBanner,
        second - first < timeout ==> state.key_pressed(first, timeout).0.key_pressed(
            second,
            timeout,
        ) == (state.key_pressed(first, timeout).0, KeyAction::ForceExit),
        second - first >= timeout ==> state.key_pressed(first, timeout).0.key_pressed(
            second,
            timeout,
        ) == (
            InterruptModel { last_time: Some(second), showing_message: true, ..state },
            KeyAction::ShowBanner,
        ),
{
}

/// The state after ticks of the expiry ticker at the times `times`, in order.
pub open spec fn after_ticks(state: InterruptModel, times: Seq<u64>, timeout: u64) -> InterruptModel
    decreases times.len(),
{
    if times.len() == 0 {
        state
    } else {
        after_ticks(state, times.drop_last(), timeout).ticked(times.last(), timeout)
    }
}

/// Ticks either leave the state as it is or clear the banner, and change
/// nothing else.
pub proof fn lemma_ticks_only_clear(state: InterruptModel, times: Seq<u64>, timeout: u64)
    ensures
        after_ticks(state, times, timeout) == state || after_ticks(state, times, timeout)
            == (InterruptModel { last_time: None, showing_message: false, ..state }),
    decreases times.len(),
{
    if times.len() > 0 {
        lemma_ticks_only_clear(state, times.drop_last(), timeout);
    }
}

/// The banner does not outlive its time: once one tick among `times` comes
/// more than `timeout` after the press that raised the banner, the banner is
/// gone after the ticks, with no other step taken.
pub proof fn lemma_banner_expires(
    state: InterruptModel,
    pressed: u64,
    times: Seq<u64>,
    timeout: u64,
    due: int,
)
    requires
        state.wf(),
        state.last_time == Some(pressed),
        0 <= due < times.len(),
        elapsed(times[due], pressed) > timeout,
    ensures
        !after_ticks(state, times, timeout).showing_message,
        after_ticks(state, times, timeout).last_time is None,
    decreases times.len(),
{
    lemma_ticks_only_clear(state, times.drop_last(), timeout);
    if due < times.len() - 1 {
        lemma_banner_expires(state, pressed, times.drop_last(), timeout, due);
    }
}

/// The times of `count` ticks that start at `start` and come `interval` apart.
pub open spec fn tick_times(start: u64, interval: u64, count: nat) -> Seq<u64> {
    Seq::new(count, |k: int| (start + k * interval) as u64)
}

/// A ticker that ticks every `interval` from `start` on has a tick at or
/// after `deadline` and less than `interval` after it.
pub proof fn lemma_tick_falls_due(start: nat, interval: nat, deadline: nat) -> (k: nat)
    requires
        interval > 0,
        start <= deadline,
    ensures
        deadline <= start + k * interval < deadline + interval,
{
    let gap = (deadline - start) as nat;
    let q = gap / interval;
    let r = gap % interval;
    assert(gap == q * interval + r && 0 <= r < interval) by (nonlinear_arith)
        requires
            interval > 0,
            q == gap / interval,
            r == gap % interval,
    ;
    if r == 0 {
        q
    } else {
        assert((q + 1) * interval == q * interval + interval) by (nonlinear_arith);
        q + 1
    }
}

/// The banner is cleared within one tick interval after its time is up.
/// Let the banner be raised by a press at `pressed`, and let the ticker
/// tick every `interval` from `start` on, having started no later than
/// `pressed + timeout`. Then some tick comes after `pressed + timeout`
/// and no more than `interval` later, and after the ticks up to that one
/// the banner is gone, with no other step taken. No tick up to
/// `pressed + timeout` clears it.
pub proof fn lemma_banner_cleared_within_one_interval(
    state: InterruptModel,
    pressed: u64,
    timeout: u64,
    start: u64,
    interval: u64,
) -> (count: nat)
    requires
        state.wf(),
        state.last_time == Some(pressed),
        interval > 0,
        start <= pressed + timeout,
        pressed + timeout + interval <= u64::MAX,
    ensures
        count > 0,
        pressed + timeout < start + (count - 1) * interval <= pressed + timeout + interval,
        !after_ticks(state, tick_times(start, interval, count), timeout).showing_message,
        forall|now: u64| now <= pressed + timeout ==> state.ticked(now, timeout) == state,
{
    let deadline = (pressed + timeout + 1) as nat;
    let k = lemma_tick_falls_due(start as nat, interval as nat, deadline);
    let count = k + 1;
    let times = tick_times(start, interval, count);
    assert(times[k as int] == start + k * interval);
    lemma_banner_expires(state, pressed, times, timeout, k as int);
    count
}

impl Default for CtrlCState {
    fn default() -> (state: Self)
        ensures
            state@ == InterruptModel::initial(),
    {
        Self::new()
    }
}

} // verus!
