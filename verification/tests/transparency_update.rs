use tui_logic::transparency::stored_full_transparency;
use tui_logic::transparency::ConfigRead;
use tui_logic::transparency::ReflowFailureInjector;
use tui_logic::transparency::RuntimeTransparency;
use tui_logic::transparency::TransparencyAction;
use tui_logic::transparency::TransparencyEdit;
use tui_logic::transparency::TransparencyEvent;
use tui_logic::transparency::TransparencyUpdate;
use tui_logic::transparency::UpdatePhase;

/// A stand-in for the config file and the runtime copies, driven by the update's actions.
struct Host {
    stored: Option<bool>,
    runtime: RuntimeTransparency,
    reflows: usize,
    stream_marks: usize,
    streaming: bool,
    errors: Vec<String>,
    infos: Vec<String>,
    fail_reads: bool,
    fail_edits: usize,
    injector: ReflowFailureInjector,
}

impl Host {
    fn new(stored: Option<bool>, runtime: bool) -> Self {
        Host {
            stored,
            runtime: RuntimeTransparency { config: runtime, chat_widget: runtime, terminal: runtime },
            reflows: 0,
            stream_marks: 0,
            streaming: false,
            errors: Vec::new(),
            infos: Vec::new(),
            fail_reads: false,
            fail_edits: 0,
            injector: ReflowFailureInjector { remaining: 0 },
        }
    }

    fn run(&mut self, enabled: bool, task_running: bool, transcript_empty: bool) -> TransparencyUpdate {
        let (mut update, mut actions) =
            TransparencyUpdate::start(enabled, self.runtime.config, task_running, transcript_empty, self.streaming);
        let mut guard = 0;
        while !actions.is_empty() {
            guard += 1;
            assert!(guard < 20, "update did not finish");
            let mut event = None;
            for action in actions {
                match action {
                    TransparencyAction::ReadStored => {
                        event = Some(TransparencyEvent::StoredRead(if self.fail_reads {
                            Err("permission denied".to_string())
                        } else {
                            Ok(self.stored)
                        }));
                    }
                    TransparencyAction::ApplyEdit(edit) => {
                        if self.fail_edits > 0 {
                            self.fail_edits -= 1;
                            event = Some(TransparencyEvent::EditApplied(Err("read-only file".to_string())));
                        } else {
                            self.stored = match edit {
                                TransparencyEdit::Store(b) => Some(b),
                                TransparencyEdit::Clear => None,
                            };
                            event = Some(TransparencyEvent::EditApplied(Ok(())));
                        }
                    }
                    TransparencyAction::SetRuntime(b) => self.runtime.set_runtime_full_transparency(b),
                    TransparencyAction::Reflow => {
                        self.reflows += 1;
                        event = Some(TransparencyEvent::Reflowed(if self.injector.take_forced_reflow_failure() {
                            Err("forced reflow failure".to_string())
                        } else {
                            Ok(())
                        }));
                    }
                    TransparencyAction::MarkReflowRanDuringStream => self.stream_marks += 1,
                    TransparencyAction::ReportError(m) => self.errors.push(m),
                    TransparencyAction::ReportInfo(m) => self.infos.push(m),
                }
            }
            actions = match event {
                Some(e) => update.step(e),
                None => Vec::new(),
            };
        }
        update
    }

    fn all(&self, value: bool) -> bool {
        self.runtime.config == value && self.runtime.chat_widget == value && self.runtime.terminal == value
    }
}

#[test]
fn toggling_persists_and_syncs_runtime_state() {
    let mut host = Host::new(None, false);
    let update = host.run(true, false, false);
    assert_eq!(update.phase, UpdatePhase::Done);
    assert!(host.all(true));
    assert_eq!(host.stored, Some(true));
    assert_eq!(host.reflows, 1);
    assert_eq!(host.infos, vec!["Full transparency enabled.".to_string()]);

    host.run(false, false, false);
    assert!(host.all(false));
    assert_eq!(host.stored, Some(false));
    assert_eq!(host.infos[1], "Full transparency disabled.");
    assert!(host.errors.is_empty());
}

#[test]
fn update_is_rejected_while_a_task_runs() {
    let mut host = Host::new(None, false);
    host.run(true, true, false);
    assert!(host.all(false));
    assert_eq!(host.stored, None);
    assert_eq!(host.reflows, 0);
    assert_eq!(host.errors, vec!["'/transparent' is disabled while a task is in progress.".to_string()]);
}

#[test]
fn empty_transcript_is_not_redrawn() {
    let mut host = Host::new(None, false);
    host.run(true, false, true);
    assert!(host.all(true));
    assert_eq!(host.stored, Some(true));
    assert_eq!(host.reflows, 0);
    assert_eq!(host.infos, vec!["Full transparency enabled.".to_string()]);
}

#[test]
fn failed_save_does_not_redraw_or_apply() {
    let mut host = Host::new(None, false);
    host.fail_edits = 1;
    host.injector.force_next_reflow_failure_for_test();
    host.run(true, false, false);
    assert!(host.all(false));
    assert_eq!(host.stored, None);
    assert!(host.injector.take_forced_reflow_failure(), "persistence failure must prevent the redraw");
    assert_eq!(host.errors, vec!["Failed to save full transparency setting: read-only file".to_string()]);
}

#[test]
fn failed_read_reports_a_save_failure() {
    let mut host = Host::new(Some(false), false);
    host.fail_reads = true;
    host.run(true, false, false);
    assert!(host.all(false));
    assert_eq!(host.stored, Some(false));
    assert_eq!(host.errors, vec!["Failed to save full transparency setting: permission denied".to_string()]);
}

#[test]
fn failed_redraw_restores_an_absent_user_value() {
    let mut host = Host::new(None, false);
    host.injector.force_next_reflow_failure_for_test();
    host.run(true, false, false);
    assert!(host.all(false));
    assert_eq!(host.stored, None);
    assert_eq!(host.reflows, 2);
    assert_eq!(host.errors, vec!["Failed to redraw transcript: forced reflow failure".to_string()]);
}

#[test]
fn restoring_redraw_during_streaming_is_recorded() {
    let mut host = Host::new(None, false);
    host.streaming = true;
    host.injector.force_next_reflow_failure_for_test();
    host.run(true, false, false);
    assert!(host.all(false));
    assert_eq!(host.stored, None);
    assert_eq!(host.stream_marks, 1);
    assert_eq!(host.errors, vec!["Failed to redraw transcript: forced reflow failure".to_string()]);
}

#[test]
fn successful_redraw_during_streaming_is_recorded_once() {
    let mut host = Host::new(None, false);
    host.streaming = true;
    host.run(true, false, false);
    assert_eq!(host.stream_marks, 1);
    let mut quiet = Host::new(None, false);
    quiet.run(true, false, false);
    assert_eq!(quiet.stream_marks, 0);
    let mut empty = Host::new(None, false);
    empty.streaming = true;
    empty.run(true, false, true);
    assert_eq!(empty.stream_marks, 0);
}

#[test]
fn failed_redraw_restores_a_user_value_masked_by_an_override() {
    let mut host = Host::new(Some(false), true);
    host.injector.force_next_reflow_failure_for_test();
    host.run(true, false, false);
    assert!(host.all(true));
    assert_eq!(host.stored, Some(false));
}

#[test]
fn failed_rollback_keeps_the_new_value_and_reports_both_failures() {
    // The first edit saves the new value; the rollback edit fails.
    let (mut update, actions) = TransparencyUpdate::start(true, false, false, false, false);
    assert!(matches!(actions[..], [TransparencyAction::ReadStored]));
    let actions = update.step(TransparencyEvent::StoredRead(Ok(Some(false))));
    assert!(matches!(actions[..], [TransparencyAction::ApplyEdit(TransparencyEdit::Store(true))]));
    let actions = update.step(TransparencyEvent::EditApplied(Ok(())));
    assert!(matches!(actions[..], [TransparencyAction::SetRuntime(true), TransparencyAction::Reflow]));
    let actions = update.step(TransparencyEvent::Reflowed(Err("boom".to_string())));
    assert!(matches!(actions[..], [TransparencyAction::ApplyEdit(TransparencyEdit::Store(false))]));
    let actions = update.step(TransparencyEvent::EditApplied(Err("disk full".to_string())));
    let messages: Vec<String> = actions
        .into_iter()
        .map(|a| match a {
            TransparencyAction::ReportError(m) => m,
            _ => panic!("expected only error reports"),
        })
        .collect();
    assert_eq!(
        messages,
        vec![
            "Failed to restore full transparency setting after redraw failure: disk full".to_string(),
            "Failed to redraw transcript: boom".to_string(),
        ]
    );
    assert_eq!(update.phase, UpdatePhase::Done);
    // Events after the end are ignored.
    assert!(update.step(TransparencyEvent::Reflowed(Ok(()))).is_empty());
}

#[test]
fn rollback_edit_clears_an_absent_value() {
    let (mut update, _) = TransparencyUpdate::start(false, true, false, false, false);
    update.step(TransparencyEvent::StoredRead(Ok(None)));
    update.step(TransparencyEvent::EditApplied(Ok(())));
    let actions = update.step(TransparencyEvent::Reflowed(Err("x".to_string())));
    assert!(matches!(actions[..], [TransparencyAction::ApplyEdit(TransparencyEdit::Clear)]));
    let actions = update.step(TransparencyEvent::EditApplied(Ok(())));
    assert!(matches!(actions[..], [TransparencyAction::SetRuntime(true), TransparencyAction::Reflow]));
}

#[test]
fn injector_fails_exactly_the_forced_redraws() {
    let mut injector = ReflowFailureInjector { remaining: 0 };
    assert!(!injector.take_forced_reflow_failure());
    injector.force_next_reflow_failure_for_test();
    assert!(injector.take_forced_reflow_failure());
    assert!(!injector.take_forced_reflow_failure());
    let mut two = ReflowFailureInjector { remaining: 2 };
    assert!(two.take_forced_reflow_failure());
    assert_eq!(two.remaining, 1);
}

#[test]
fn stored_value_is_read_from_the_tui_table() {
    assert_eq!(stored_full_transparency(ConfigRead::Missing), Ok(None));
    assert_eq!(
        stored_full_transparency(ConfigRead::Failed("denied".to_string())),
        Err("denied".to_string())
    );
    assert_eq!(
        stored_full_transparency(ConfigRead::Contents("[tui]\nfull_transparency = true\n".to_string())),
        Ok(Some(true))
    );
    assert_eq!(
        stored_full_transparency(ConfigRead::Contents(
            "[tui]\nfull_transparency = false # keep user preference\n".to_string()
        )),
        Ok(Some(false))
    );
    assert_eq!(stored_full_transparency(ConfigRead::Contents("model = \"x\"\n".to_string())), Ok(None));
    assert_eq!(stored_full_transparency(ConfigRead::Contents("tui = 3\n".to_string())), Ok(None));
    assert_eq!(stored_full_transparency(ConfigRead::Contents("[tui]\nfull_transparency = 1\n".to_string())), Ok(None));
    assert!(stored_full_transparency(ConfigRead::Contents("[tui\n".to_string())).is_err());
}
