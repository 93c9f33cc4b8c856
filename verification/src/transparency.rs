//! Persisting and applying fully transparent backgrounds.
//!
//! Turning the setting on or off saves it to the user config, applies it at runtime and
//! redraws the transcript. When the redraw fails, the saved value and the runtime value are
//! rolled back. The steps that touch files and the terminal are the caller's: this module
//! decides, step by step, what happens next.

use vstd::prelude::*;
use vstd::string::StringExecFns;

verus! {

/// The runtime copies of the setting: the config, the chat widget and the terminal.
#[derive(Clone, Copy, Debug, PartialEq, Eq, Structural)]
pub struct RuntimeTransparency {
    pub config: bool,
    pub chat_widget: bool,
    pub terminal: bool,
}

impl RuntimeTransparency {
    /// Applies `enabled` to every runtime copy.
    pub fn set_runtime_full_transparency(&mut self, enabled: bool)
        ensures
            *final(self) == (RuntimeTransparency { config: enabled, chat_widget: enabled, terminal: enabled }),
    {
        self.config = enabled;
        self.chat_widget = enabled;
        self.terminal = enabled;
    }
}

/// A change to the user config's `tui.full_transparency`.
#[derive(Clone, Copy, Debug, PartialEq, Eq, Structural)]
pub enum TransparencyEdit {
    /// Write this value.
    Store(bool),
    /// Remove the key.
    Clear,
}

/// The edit that puts back the stored value read before the change: the value itself, or
/// no key when there was none.
pub open spec fn rollback_edit(stored: Option<bool>) -> TransparencyEdit {
    match stored {
        Some(b) => TransparencyEdit::Store(b),
        None => TransparencyEdit::Clear,
    }
}

/// Something the caller must do.
pub enum TransparencyAction {
    /// Read the stored user value of `tui.full_transparency`.
    ReadStored,
    /// Apply an edit to the user config.
    ApplyEdit(TransparencyEdit),
    /// Apply a value to every runtime copy.
    SetRuntime(bool),
    /// Redraw the transcript.
    Reflow,
    /// Record that the redraw just done ran while a response was streaming.
    MarkReflowRanDuringStream,
    /// Add an error message to the transcript.
    ReportError(String),
    /// Add an informational message to the transcript.
    ReportInfo(String),
}

/// The value of a [`TransparencyAction`].
pub enum ActionView {
    ReadStored,
    ApplyEdit(TransparencyEdit),
    SetRuntime(bool),
    Reflow,
    MarkReflowRanDuringStream,
    ReportError(Seq<char>),
    ReportInfo(Seq<char>),
}

impl View for TransparencyAction {
    type V = ActionView;

    open spec fn view(&self) -> ActionView {
        match self {
            TransparencyAction::ReadStored => ActionView::ReadStored,
            TransparencyAction::ApplyEdit(e) => ActionView::ApplyEdit(*e),
            TransparencyAction::SetRuntime(b) => ActionView::SetRuntime(*b),
            TransparencyAction::Reflow => ActionView::Reflow,
            TransparencyAction::MarkReflowRanDuringStream => ActionView::MarkReflowRanDuringStream,
            TransparencyAction::ReportError(s) => ActionView::ReportError(s@),
            TransparencyAction::ReportInfo(s) => ActionView::ReportInfo(s@),
        }
    }
}

/// The values of a run of actions.
pub open spec fn action_views(a: Seq<TransparencyAction>) -> Seq<ActionView> {
    a.map_values(|x: TransparencyAction| x@)
}

/// What the caller reports back after an action.
pub enum TransparencyEvent {
    /// The stored value was read (`None`: no value stored), or reading failed.
    StoredRead(Result<Option<bool>, String>),
    /// An edit was applied, or failed.
    EditApplied(Result<(), String>),
    /// The transcript was redrawn, or the redraw failed.
    Reflowed(Result<(), String>),
}

/// Where an update stands.
#[derive(Clone, Copy, Debug, PartialEq, Eq, Structural)]
pub enum UpdatePhase {
    ReadingStored,
    Persisting,
    Redrawing,
    RollingBack,
    Restoring,
    Done,
}

/// An update of the setting under way.
pub struct TransparencyUpdate {
    /// The value asked for.
    pub enabled: bool,
    /// The runtime value before the update.
    pub previous: bool,
    /// Whether the transcript has no cells (then nothing needs redrawing).
    pub transcript_empty: bool,
    /// Whether a redraw now runs while a response is streaming (a successful one is then
    /// recorded as such).
    pub stream_active: bool,
    /// The stored user value read before persisting.
    pub stored: Option<bool>,
    /// Why the redraw failed, once it has.
    pub redraw_error: Option<String>,
    pub phase: UpdatePhase,
}

/// The value of a [`TransparencyUpdate`].
pub struct UpdateView {
    pub enabled: bool,
    pub previous: bool,
    pub transcript_empty: bool,
    pub stream_active: bool,
    pub stored: Option<bool>,
    pub redraw_error: Option<Seq<char>>,
    pub phase: UpdatePhase,
}

impl View for TransparencyUpdate {
    type V = UpdateView;

    open spec fn view(&self) -> UpdateView {
        UpdateView {
            enabled: self.enabled,
            previous: self.previous,
            transcript_empty: self.transcript_empty,
            stream_active: self.stream_active,
            stored: self.stored,
            redraw_error: match self.redraw_error {
                Some(e) => Some(e@),
                None => None,
            },
            phase: self.phase,
        }
    }
}

/// The message refusing an update while a task runs.
pub open spec fn task_running_message() -> Seq<char> {
    "'/transparent' is disabled while a task is in progress."@
}

/// The message for a failure to read or save the setting.
pub open spec fn save_failed_message(err: Seq<char>) -> Seq<char> {
    "Failed to save full transparency setting: "@ + err
}

/// The message for a failure to put the saved setting back.
pub open spec fn restore_failed_message(err: Seq<char>) -> Seq<char> {
    "Failed to restore full transparency setting after redraw failure: "@ + err
}

/// The message for a failed redraw.
pub open spec fn redraw_failed_message(err: Seq<char>) -> Seq<char> {
    "Failed to redraw transcript: "@ + err
}

/// The message confirming the new value.
pub open spec fn done_message(enabled: bool) -> Seq<char> {
    if enabled {
        "Full transparency enabled."@
    } else {
        "Full transparency disabled."@
    }
}

/// What reading the user config file gave.
pub enum ConfigRead {
    /// There is no such file.
    Missing,
    /// Reading failed, with this message.
    Failed(String),
    /// The file holds this text.
    Contents(String),
}

/// What `toml::from_str::<toml::Value>` makes of the document `text`, read at `table.key`:
/// the boolean stored there (`None` where `table` is missing or no table, or `key` is missing
/// or no boolean), or the parser's error message where `text` is no TOML document.
pub uninterp spec fn toml_bool_at(text: Seq<char>, table: Seq<char>, key: Seq<char>) -> Result<Option<bool>, Seq<char>>;

/// Parses `text` with `toml::from_str::<toml::Value>` and reads the boolean at `table.key`
/// with `toml::Value::get`, `toml::Value::as_table`, `toml::Table::get` and
/// `toml::Value::as_bool`; a parse error becomes its message. Claimed: the result is
/// [`toml_bool_at`] of the arguments, which depends on them alone.
#[verifier::external_body]
fn read_toml_bool(text: &str, table: &str, key: &str) -> (r: Result<Option<bool>, String>)
    ensures
        match (r, toml_bool_at(text@, table@, key@)) {
            (Ok(v), Ok(w)) => v == w,
            (Err(e), Err(m)) => e@ == m,
            _ => false,
        },
{
    match toml::from_str::<toml::Value>(text) {
        Ok(doc) => Ok(doc.get(table).and_then(toml::Value::as_table).and_then(|t| t.get(key)).and_then(toml::Value::as_bool)),
        Err(err) => Err(err.to_string()),
    }
}

/// The user value of `tui.full_transparency` in the config that was read: none when there is
/// no file, the read error when reading failed, else what the TOML document holds there.
pub fn stored_full_transparency(read: ConfigRead) -> (r: Result<Option<bool>, String>)
    ensures
        match read {
            ConfigRead::Missing => r == Ok::<Option<bool>, String>(None),
            ConfigRead::Failed(e) => r is Err && r->Err_0@ == e@,
            ConfigRead::Contents(text) => match (r, toml_bool_at(text@, "tui"@, "full_transparency"@)) {
                (Ok(v), Ok(w)) => v == w,
                (Err(e), Err(m)) => e@ == m,
                _ => false,
            },
        },
{
    match read {
        ConfigRead::Missing => Ok(None),
        ConfigRead::Failed(e) => Err(e),
        ConfigRead::Contents(text) => read_toml_bool(text.as_str(), "tui", "full_transparency"),
    }
}

/// The state and actions that start an update.
pub open spec fn start_spec(enabled: bool, previous: bool, task_running: bool, transcript_empty: bool, stream_active: bool) -> (
    UpdateView,
    Seq<ActionView>,
) {
    let s = UpdateView {
        enabled,
        previous,
        transcript_empty,
        stream_active,
        stored: None,
        redraw_error: None,
        phase: if task_running {
            UpdatePhase::Done
        } else {
            UpdatePhase::ReadingStored
        },
    };
    if task_running {
        (s, seq![ActionView::ReportError(task_running_message())])
    } else {
        (s, seq![ActionView::ReadStored])
    }
}

/// The value of a [`TransparencyEvent`].
pub enum EventView {
    StoredRead(Result<Option<bool>, Seq<char>>),
    EditApplied(Result<(), Seq<char>>),
    Reflowed(Result<(), Seq<char>>),
}

impl View for TransparencyEvent {
    type V = EventView;

    open spec fn view(&self) -> EventView {
        match self {
            TransparencyEvent::StoredRead(r) => EventView::StoredRead(
                match r {
                    Ok(v) => Ok(*v),
                    Err(e) => Err(e@),
                },
            ),
            TransparencyEvent::EditApplied(r) => EventView::EditApplied(
                match r {
                    Ok(v) => Ok(()),
                    Err(e) => Err(e@),
                },
            ),
            TransparencyEvent::Reflowed(r) => EventView::Reflowed(
                match r {
                    Ok(v) => Ok(()),
                    Err(e) => Err(e@),
                },
            ),
        }
    }
}

/// The record of a successful redraw: it ran during streaming when a response was streaming.
pub open spec fn stream_mark(s: UpdateView) -> Seq<ActionView> {
    if s.stream_active {
        seq![ActionView::MarkReflowRanDuringStream]
    } else {
        Seq::empty()
    }
}

/// The next state and actions after `e` in state `s`. An event that does not belong to the
/// current phase changes nothing.
pub open spec fn step_spec(s: UpdateView, e: EventView) -> (UpdateView, Seq<ActionView>) {
    let done = UpdateView { phase: UpdatePhase::Done, ..s };
    match (s.phase, e) {
        (UpdatePhase::ReadingStored, EventView::StoredRead(Err(err))) => (
            done,
            seq![ActionView::ReportError(save_failed_message(err))],
        ),
        (UpdatePhase::ReadingStored, EventView::StoredRead(Ok(stored))) => (
            UpdateView { stored, phase: UpdatePhase::Persisting, ..s },
            seq![ActionView::ApplyEdit(TransparencyEdit::Store(s.enabled))],
        ),
        (UpdatePhase::Persisting, EventView::EditApplied(Err(err))) => (
            done,
            seq![ActionView::ReportError(save_failed_message(err))],
        ),
        (UpdatePhase::Persisting, EventView::EditApplied(Ok(_))) => if s.transcript_empty {
            (done, seq![ActionView::SetRuntime(s.enabled), ActionView::ReportInfo(done_message(s.enabled))])
        } else {
            (UpdateView { phase: UpdatePhase::Redrawing, ..s }, seq![ActionView::SetRuntime(s.enabled), ActionView::Reflow])
        },
        (UpdatePhase::Redrawing, EventView::Reflowed(Ok(_))) => (
            done,
            stream_mark(s) + seq![ActionView::ReportInfo(done_message(s.enabled))],
        ),
        (UpdatePhase::Redrawing, EventView::Reflowed(Err(err))) => (
            UpdateView { redraw_error: Some(err), phase: UpdatePhase::RollingBack, ..s },
            seq![ActionView::ApplyEdit(rollback_edit(s.stored))],
        ),
        (UpdatePhase::RollingBack, EventView::EditApplied(Err(err))) => (
            done,
            seq![
                ActionView::ReportError(restore_failed_message(err)),
                ActionView::ReportError(redraw_failed_message(s.redraw_error->0)),
            ],
        ),
        (UpdatePhase::RollingBack, EventView::EditApplied(Ok(_))) => (
            UpdateView { phase: UpdatePhase::Restoring, ..s },
            seq![ActionView::SetRuntime(s.previous), ActionView::Reflow],
        ),
        (UpdatePhase::Restoring, EventView::Reflowed(r)) => (
            done,
            (if r is Ok {
                stream_mark(s)
            } else {
                Seq::empty()
            }) + seq![ActionView::ReportError(redraw_failed_message(s.redraw_error->0))],
        ),
        _ => (s, Seq::empty()),
    }
}

fn message_with(prefix: &str, detail: &str) -> (s: String)
    ensures
        s@ == prefix@ + detail@,
{
    let mut s = String::from_str(prefix);
    s.append(detail);
    s
}

impl TransparencyUpdate {
    /// Starts updating the setting to `enabled`; `previous` is its runtime value. A running
    /// task refuses the update. `stream_active` tells whether a redraw now runs while a
    /// response is streaming.
    pub fn start(enabled: bool, previous: bool, task_running: bool, transcript_empty: bool, stream_active: bool) -> (r: (
        TransparencyUpdate,
        Vec<TransparencyAction>,
    ))
        ensures
            (r.0@, action_views(r.1@)) == start_spec(enabled, previous, task_running, transcript_empty, stream_active),
            r.0.phase != UpdatePhase::RollingBack && r.0.phase != UpdatePhase::Restoring,
    {
        let mut actions: Vec<TransparencyAction> = Vec::new();
        if task_running {
            actions.push(
                TransparencyAction::ReportError(String::from_str("'/transparent' is disabled while a task is in progress.")),
            );
        } else {
            actions.push(TransparencyAction::ReadStored);
        }
        let update = TransparencyUpdate {
            enabled,
            previous,
            transcript_empty,
            stream_active,
            stored: None,
            redraw_error: None,
            phase: if task_running {
                UpdatePhase::Done
            } else {
                UpdatePhase::ReadingStored
            },
        };
        proof {
            let expected = start_spec(enabled, previous, task_running, transcript_empty, stream_active).1;
            assert(action_views(actions@) =~= expected);
        }
        (update, actions)
    }

    /// Advances the update by one reported event.
    pub fn step(&mut self, event: TransparencyEvent) -> (actions: Vec<TransparencyAction>)
        requires
            (old(self).phase == UpdatePhase::RollingBack || old(self).phase == UpdatePhase::Restoring) ==> old(
                self,
            ).redraw_error is Some,
        ensures
            (final(self)@, action_views(actions@)) == step_spec(old(self)@, event@),
            (final(self).phase == UpdatePhase::RollingBack || final(self).phase == UpdatePhase::Restoring)
                ==> final(self).redraw_error is Some,
    {
        let mut actions: Vec<TransparencyAction> = Vec::new();
        let ghost s0 = self@;
        let ghost e0 = event@;
        match (self.phase, event) {
            (UpdatePhase::ReadingStored, TransparencyEvent::StoredRead(Err(err))) => {
                self.phase = UpdatePhase::Done;
                actions.push(
                    TransparencyAction::ReportError(message_with("Failed to save full transparency setting: ", err.as_str())),
                );
            },
            (UpdatePhase::ReadingStored, TransparencyEvent::StoredRead(Ok(stored))) => {
                self.stored = stored;
                self.phase = UpdatePhase::Persisting;
                actions.push(TransparencyAction::ApplyEdit(TransparencyEdit::Store(self.enabled)));
            },
            (UpdatePhase::Persisting, TransparencyEvent::EditApplied(Err(err))) => {
                self.phase = UpdatePhase::Done;
                actions.push(
                    TransparencyAction::ReportError(message_with("Failed to save full transparency setting: ", err.as_str())),
                );
            },
            (UpdatePhase::Persisting, TransparencyEvent::EditApplied(Ok(()))) => {
                actions.push(TransparencyAction::SetRuntime(self.enabled));
                if self.transcript_empty {
                    self.phase = UpdatePhase::Done;
                    actions.push(TransparencyAction::ReportInfo(Self::done_text(self.enabled)));
                } else {
                    self.phase = UpdatePhase::Redrawing;
                    actions.push(TransparencyAction::Reflow);
                }
            },
            (UpdatePhase::Redrawing, TransparencyEvent::Reflowed(Ok(()))) => {
                self.phase = UpdatePhase::Done;
                if self.stream_active {
                    actions.push(TransparencyAction::MarkReflowRanDuringStream);
                }
                actions.push(TransparencyAction::ReportInfo(Self::done_text(self.enabled)));
            },
            (UpdatePhase::Redrawing, TransparencyEvent::Reflowed(Err(err))) => {
                self.redraw_error = Some(err);
                self.phase = UpdatePhase::RollingBack;
                let edit = match self.stored {
                    Some(b) => TransparencyEdit::Store(b),
                    None => TransparencyEdit::Clear,
                };
                actions.push(TransparencyAction::ApplyEdit(edit));
            },
            (UpdatePhase::RollingBack, TransparencyEvent::EditApplied(Err(err))) => {
                self.phase = UpdatePhase::Done;
                actions.push(
                    TransparencyAction::ReportError(
                        message_with("Failed to restore full transparency setting after redraw failure: ", err.as_str()),
                    ),
                );
                actions.push(TransparencyAction::ReportError(self.redraw_failed_text()));
            },
            (UpdatePhase::RollingBack, TransparencyEvent::EditApplied(Ok(()))) => {
                self.phase = UpdatePhase::Restoring;
                actions.push(TransparencyAction::SetRuntime(self.previous));
                actions.push(TransparencyAction::Reflow);
            },
            (UpdatePhase::Restoring, TransparencyEvent::Reflowed(result)) => {
                self.phase = UpdatePhase::Done;
                if result.is_ok() && self.stream_active {
                    actions.push(TransparencyAction::MarkReflowRanDuringStream);
                }
                actions.push(TransparencyAction::ReportError(self.redraw_failed_text()));
            },
            _ => {},
        }
        proof {
            assert(action_views(actions@) =~= step_spec(s0, e0).1);
        }
        actions
    }

    fn done_text(enabled: bool) -> (s: String)
        ensures
            s@ == done_message(enabled),
    {
        if enabled {
            String::from_str("Full transparency enabled.")
        } else {
            String::from_str("Full transparency disabled.")
        }
    }

    fn redraw_failed_text(&self) -> (s: String)
        requires
            self.redraw_error is Some,
        ensures
            s@ == redraw_failed_message(self@.redraw_error->0),
    {
        match &self.redraw_error {
            Some(e) => message_with("Failed to redraw transcript: ", e.as_str()),
            None => String::new(),
        }
    }
}

/// The stored user value and the runtime value of the setting, as the actions leave them.
pub struct SettingValues {
    pub stored: Option<bool>,
    pub runtime: bool,
}

/// The stored value after `edit` is applied.
pub open spec fn edited(stored: Option<bool>, edit: TransparencyEdit) -> Option<bool> {
    match edit {
        TransparencyEdit::Store(b) => Some(b),
        TransparencyEdit::Clear => None,
    }
}

/// The values after the caller performs `a` successfully.
pub open spec fn performed(v: SettingValues, a: ActionView) -> SettingValues {
    match a {
        ActionView::ApplyEdit(edit) => SettingValues { stored: edited(v.stored, edit), ..v },
        ActionView::SetRuntime(b) => SettingValues { runtime: b, ..v },
        _ => v,
    }
}

/// The values after the caller performs every action of `a` in turn.
pub open spec fn performed_all(v: SettingValues, a: Seq<ActionView>) -> SettingValues
    decreases a.len(),
{
    if a.len() == 0 {
        v
    } else {
        performed_all(performed(v, a[0]), a.drop_first())
    }
}

/// The state and all actions after the events `events`, one step each.
pub open spec fn run(s: UpdateView, events: Seq<EventView>) -> (UpdateView, Seq<ActionView>)
    decreases events.len(),
{
    if events.len() == 0 {
        (s, Seq::empty())
    } else {
        let (s1, a1) = step_spec(s, events[0]);
        let (s2, a2) = run(s1, events.drop_first());
        (s2, a1 + a2)
    }
}

proof fn lemma_performed_all_append(v: SettingValues, a: Seq<ActionView>, b: Seq<ActionView>)
    ensures
        performed_all(v, a + b) == performed_all(performed_all(v, a), b),
    decreases a.len(),
{
    if a.len() > 0 {
        assert((a + b).drop_first() =~= a.drop_first() + b);
        lemma_performed_all_append(performed(v, a[0]), a.drop_first(), b);
    } else {
        assert(a + b =~= b);
    }
}

/// An update refused because a task is running reports one error and then ignores every
/// event: it never edits the config, changes the runtime value or redraws.
pub proof fn law_refused_update_does_nothing(
    enabled: bool,
    previous: bool,
    transcript_empty: bool,
    stream_active: bool,
    e: EventView,
)
    ensures
        ({
            let (s, a) = start_spec(enabled, previous, true, transcript_empty, stream_active);
            &&& a == seq![ActionView::ReportError(task_running_message())]
            &&& s.phase == UpdatePhase::Done
            &&& step_spec(s, e) == (s, Seq::<ActionView>::empty())
        }),
{
}

/// When saving the new value fails, the update stops with one error: the runtime value is
/// never changed and the transcript is never redrawn.
pub proof fn law_failed_save_changes_nothing(
    enabled: bool,
    previous: bool,
    transcript_empty: bool,
    stream_active: bool,
    stored: Option<bool>,
    err: Seq<char>,
)
    ensures
        ({
            let (s0, a0) = start_spec(enabled, previous, false, transcript_empty, stream_active);
            let (s1, a1) = run(s0, seq![EventView::StoredRead(Ok(stored)), EventView::EditApplied(Err(err))]);
            &&& s1.phase == UpdatePhase::Done
            &&& a0 + a1 == seq![
                ActionView::ReadStored,
                ActionView::ApplyEdit(TransparencyEdit::Store(enabled)),
                ActionView::ReportError(save_failed_message(err)),
            ]
            &&& forall|i: int| 0 <= i < a1.len() ==> !(#[trigger] a1[i] is SetRuntime) && !(a1[i] is Reflow)
        }),
{
    reveal_with_fuel(run, 3);
    let (s0, a0) = start_spec(enabled, previous, false, transcript_empty, stream_active);
    let events = seq![EventView::StoredRead(Ok(stored)), EventView::EditApplied(Err(err))];
    assert(events.drop_first().drop_first() =~= Seq::<EventView>::empty());
    let (s1, a1) = run(s0, events);
    assert(a0 + a1 =~= seq![
        ActionView::ReadStored,
        ActionView::ApplyEdit(TransparencyEdit::Store(enabled)),
        ActionView::ReportError(save_failed_message(err)),
    ]);
}

/// A successful update stores the new value in the user config, applies it at runtime and
/// confirms it, whatever was stored and applied before; an empty transcript is not redrawn,
/// and a redraw is recorded as run during streaming exactly when a response is streaming.
pub proof fn law_successful_update_persists_and_applies(
    enabled: bool,
    previous: bool,
    transcript_empty: bool,
    stream_active: bool,
    stored: Option<bool>,
)
    ensures
        ({
            let (s0, a0) = start_spec(enabled, previous, false, transcript_empty, stream_active);
            let events = if transcript_empty {
                seq![EventView::StoredRead(Ok(stored)), EventView::EditApplied(Ok(()))]
            } else {
                seq![EventView::StoredRead(Ok(stored)), EventView::EditApplied(Ok(())), EventView::Reflowed(Ok(()))]
            };
            let (s1, a1) = run(s0, events);
            &&& s1.phase == UpdatePhase::Done
            &&& performed_all(SettingValues { stored, runtime: previous }, a0 + a1) == (SettingValues {
                stored: Some(enabled),
                runtime: enabled,
            })
            &&& (a0 + a1).last() == ActionView::ReportInfo(done_message(enabled))
            &&& transcript_empty ==> forall|i: int| 0 <= i < (a0 + a1).len() ==> !((#[trigger] (a0 + a1)[i]) is Reflow)
            &&& (a0 + a1).contains(ActionView::MarkReflowRanDuringStream) <==> (stream_active && !transcript_empty)
        }),
{
    reveal_with_fuel(run, 4);
    reveal_with_fuel(performed_all, 7);
    let (s0, a0) = start_spec(enabled, previous, false, transcript_empty, stream_active);
    let e1 = EventView::StoredRead(Ok(stored));
    let e2 = EventView::EditApplied(Ok(()));
    let e3 = EventView::Reflowed(Ok(()));
    let mark = ActionView::MarkReflowRanDuringStream;
    if transcript_empty {
        let events = seq![e1, e2];
        assert(events.drop_first() =~= seq![e2]);
        assert(events.drop_first().drop_first() =~= Seq::<EventView>::empty());
        let (s1, a1) = run(s0, events);
        let all = seq![
            ActionView::ReadStored,
            ActionView::ApplyEdit(TransparencyEdit::Store(enabled)),
            ActionView::SetRuntime(enabled),
            ActionView::ReportInfo(done_message(enabled)),
        ];
        assert(a0 + a1 =~= all);
        assert(all.drop_first().drop_first().drop_first().drop_first() =~= Seq::<ActionView>::empty());
        assert(!all.contains(mark)) by {
            if all.contains(mark) {
                let k = choose|k: int| 0 <= k < all.len() && all[k] == mark;
            }
        }
    } else {
        let events = seq![e1, e2, e3];
        assert(events.drop_first() =~= seq![e2, e3]);
        assert(events.drop_first().drop_first() =~= seq![e3]);
        assert(events.drop_first().drop_first().drop_first() =~= Seq::<EventView>::empty());
        let (s1, a1) = run(s0, events);
        let head = seq![
            ActionView::ReadStored,
            ActionView::ApplyEdit(TransparencyEdit::Store(enabled)),
            ActionView::SetRuntime(enabled),
            ActionView::Reflow,
        ];
        let info = ActionView::ReportInfo(done_message(enabled));
        if stream_active {
            let all = head + seq![mark, info];
            assert(a0 + a1 =~= all);
            assert(all[4] == mark);
            assert(all.drop_first().drop_first().drop_first().drop_first().drop_first().drop_first()
                =~= Seq::<ActionView>::empty());
        } else {
            let all = head + seq![info];
            assert(a0 + a1 =~= all);
            assert(all.drop_first().drop_first().drop_first().drop_first().drop_first() =~= Seq::<ActionView>::empty());
            assert(!all.contains(mark)) by {
                if all.contains(mark) {
                    let k = choose|k: int| 0 <= k < all.len() && all[k] == mark;
                }
            }
        }
    }
}

/// When the redraw fails and the rollback edit is saved, the user config holds again what
/// it held before the update, the runtime value is the previous one, and the redraw failure
/// is reported; the restoring redraw is recorded as run during streaming exactly when it
/// succeeds while a response is streaming.
pub proof fn law_failed_redraw_rolls_back(
    enabled: bool,
    previous: bool,
    stream_active: bool,
    stored: Option<bool>,
    err: Seq<char>,
    second_redraw: Result<(), Seq<char>>,
)
    ensures
        ({
            let (s0, a0) = start_spec(enabled, previous, false, false, stream_active);
            let events = seq![
                EventView::StoredRead(Ok(stored)),
                EventView::EditApplied(Ok(())),
                EventView::Reflowed(Err(err)),
                EventView::EditApplied(Ok(())),
                EventView::Reflowed(second_redraw),
            ];
            let (s1, a1) = run(s0, events);
            &&& s1.phase == UpdatePhase::Done
            &&& performed_all(SettingValues { stored, runtime: previous }, a0 + a1) == (SettingValues {
                stored,
                runtime: previous,
            })
            &&& (a0 + a1).last() == ActionView::ReportError(redraw_failed_message(err))
            &&& (a0 + a1).contains(ActionView::MarkReflowRanDuringStream) <==> (stream_active && second_redraw is Ok)
        }),
{
    reveal_with_fuel(run, 6);
    reveal_with_fuel(performed_all, 6);
    let (s0, a0) = start_spec(enabled, previous, false, false, stream_active);
    let e1 = EventView::StoredRead(Ok(stored));
    let e2 = EventView::EditApplied(Ok(()));
    let e3 = EventView::Reflowed(Err(err));
    let e5 = EventView::Reflowed(second_redraw);
    let events = seq![e1, e2, e3, e2, e5];
    assert(events.drop_first() =~= seq![e2, e3, e2, e5]);
    assert(events.drop_first().drop_first() =~= seq![e3, e2, e5]);
    assert(events.drop_first().drop_first().drop_first() =~= seq![e2, e5]);
    assert(events.drop_first().drop_first().drop_first().drop_first() =~= seq![e5]);
    assert(events.drop_first().drop_first().drop_first().drop_first().drop_first() =~= Seq::<EventView>::empty());
    let (s1, a1) = run(s0, events);
    let mark = ActionView::MarkReflowRanDuringStream;
    let head = seq![
        ActionView::ReadStored,
        ActionView::ApplyEdit(TransparencyEdit::Store(enabled)),
        ActionView::SetRuntime(enabled),
        ActionView::Reflow,
    ];
    let middle = seq![ActionView::ApplyEdit(rollback_edit(stored)), ActionView::SetRuntime(previous), ActionView::Reflow];
    let report = ActionView::ReportError(redraw_failed_message(err));
    let marked = stream_active && second_redraw is Ok;
    let tail = if marked {
        middle + seq![mark, report]
    } else {
        middle + seq![report]
    };
    let all = head + tail;
    assert(a0 + a1 =~= all);
    let v0 = SettingValues { stored, runtime: previous };
    lemma_performed_all_append(v0, head, tail);
    if marked {
        assert(tail.drop_first().drop_first().drop_first().drop_first().drop_first() =~= Seq::<ActionView>::empty());
        assert(all[7] == mark);
    } else {
        assert(tail.drop_first().drop_first().drop_first().drop_first() =~= Seq::<ActionView>::empty());
        assert(!all.contains(mark)) by {
            if all.contains(mark) {
                let k = choose|k: int| 0 <= k < all.len() && all[k] == mark;
            }
        }
    }
}

/// A counter of redraws to fail on purpose, for exercising the rollback path.
pub struct ReflowFailureInjector {
    pub remaining: u8,
}

impl ReflowFailureInjector {
    /// Whether this redraw must fail; consumes one pending failure when it does.
    pub fn take_forced_reflow_failure(&mut self) -> (fail: bool)
        ensures
            fail == (old(self).remaining > 0),
            final(self).remaining == if old(self).remaining > 0 {
                (old(self).remaining - 1) as u8
            } else {
                0
            },
    {
        if self.remaining == 0 {
            return false;
        }
        self.remaining = self.remaining - 1;
        true
    }

    /// Makes exactly the next redraw fail.
    pub fn force_next_reflow_failure_for_test(&mut self)
        ensures
            final(self).remaining == 1,
    {
        self.remaining = 1;
    }
}

} // verus!
