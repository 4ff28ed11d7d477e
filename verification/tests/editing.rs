use pweq::command::{command_outcome, CommandLine, CommandOutcome};
use pweq::editor::{
    cycle_view_mode, footer_height, generate_help_text, snapshot, step, sync_plan, EditorAction,
    EditorState, InputMode, SyncPlan, ViewMode,
};
use pweq::actions::{Adjustment, EqAction};
use pweq::eq::{Band, Rotation};
use pweq::module::FilterType;
use pweq::number::values_equal;

fn s(t: &str) -> String {
    t.to_string()
}

fn band(freq: &str, gain: &str) -> Band {
    Band { frequency: s(freq), gain: s(gain), q: s("1"), filter_type: FilterType::Peaking, muted: false }
}

fn line(c: &CommandLine) -> String {
    c.buffer.iter().collect()
}

fn typed(text: &str) -> CommandLine {
    let mut c = CommandLine::new();
    for ch in text.chars() {
        c.type_char(ch, false, false);
    }
    c
}

#[test]
fn typing_and_editing_the_line() {
    let mut c = typed("wrte");
    assert_eq!(c.cursor, 4);
    c.move_left();
    c.move_left();
    c.type_char('i', false, false);
    assert_eq!(line(&c), "write");
    assert_eq!(c.cursor, 3);
    c.type_char('x', true, false);
    c.type_char('y', false, true);
    assert_eq!(line(&c), "write");
    c.move_home();
    c.delete_forward();
    assert_eq!(line(&c), "rite");
    c.move_end();
    assert_eq!(c.cursor, 4);
    c.delete_backward();
    assert_eq!(line(&c), "rit");
    c.move_right();
    assert_eq!(c.cursor, 3);
    c.move_home();
    c.move_left();
    c.delete_backward();
    assert_eq!(c.cursor, 0);
    assert_eq!(line(&c), "rit");
}

#[test]
fn type_then_backspace_restores_the_line() {
    let mut c = typed("abc");
    c.move_left();
    let before = line(&c);
    let cursor = c.cursor;
    c.type_char('z', false, false);
    c.delete_backward();
    assert_eq!(line(&c), before);
    assert_eq!(c.cursor, cursor);
}

#[test]
fn quit_and_write_commands() {
    let mut c = typed("q");
    assert!(matches!(c.execute(), CommandOutcome::Quit));
    assert_eq!(c.history, vec![s("q")]);
    assert!(c.buffer.is_empty());

    let mut c = typed("w out.apo");
    match c.execute() {
        CommandOutcome::Write { path, force } => {
            assert_eq!(path, "out.apo");
            assert!(!force);
        }
        other => panic!("unexpected {other:?}"),
    }
    let mut c2 = typed("write! 'my eq.conf'");
    match c2.execute() {
        CommandOutcome::Write { path, force } => {
            assert_eq!(path, "my eq.conf");
            assert!(force);
        }
        other => panic!("unexpected {other:?}"),
    }
}

#[test]
fn repeat_with_force() {
    let mut c = typed("!!");
    match c.execute() {
        CommandOutcome::Failed(m) => assert_eq!(m, "no previous command"),
        other => panic!("unexpected {other:?}"),
    }
    assert!(c.history.is_empty());

    let mut c = typed("w eq.conf");
    let _ = c.execute();
    for ch in "!!".chars() {
        c.type_char(ch, false, false);
    }
    match c.execute() {
        CommandOutcome::Write { path, force } => {
            assert_eq!(path, "eq.conf");
            assert!(force);
        }
        other => panic!("unexpected {other:?}"),
    }
    assert_eq!(c.history, vec![s("w eq.conf")]);
}

#[test]
fn command_errors() {
    let mut c = typed("w");
    match c.execute() {
        CommandOutcome::Failed(m) => assert_eq!(m, "usage: write <path>"),
        other => panic!("unexpected {other:?}"),
    }
    let mut c = typed("frobnicate now");
    match c.execute() {
        CommandOutcome::Failed(m) => assert_eq!(m, "unknown command: frobnicate now"),
        other => panic!("unexpected {other:?}"),
    }
    let mut c = typed("w 'unterminated");
    match c.execute() {
        CommandOutcome::Failed(m) => assert!(m.starts_with("command parse error: ")),
        other => panic!("unexpected {other:?}"),
    }
}

#[test]
fn expansion_keeps_the_command() {
    // A `~` inside the line is not at its start and stays as typed.
    let mut c = typed("w ~/eq.apo");
    match c.execute() {
        CommandOutcome::Write { path, force } => {
            assert_eq!(path, "~/eq.apo");
            assert!(!force);
        }
        other => panic!("unexpected {other:?}"),
    }
    // A leading `~/` becomes some home text followed by the rest.
    let mut c = typed("~/q");
    match c.execute() {
        CommandOutcome::Failed(m) => {
            assert!(m.starts_with("unknown command: "));
            assert!(m.ends_with("/q"));
        }
        other => panic!("unexpected {other:?}"),
    }
    // Text before the first `$` is kept.
    let mut c = typed("frob $HOME");
    match c.execute() {
        CommandOutcome::Failed(m) => assert!(m.starts_with("unknown command: frob ")),
        CommandOutcome::ExpandFailed(_) => {}
        other => panic!("unexpected {other:?}"),
    }
}

#[test]
fn command_outcome_of_words() {
    assert!(matches!(command_outcome(Ok(vec![s("quit")]), "quit", false), CommandOutcome::Quit));
    match command_outcome(Ok(vec![s("q")]), "q", true) {
        CommandOutcome::Failed(m) => assert_eq!(m, "unknown command: q"),
        other => panic!("unexpected {other:?}"),
    }
    match command_outcome(Err(s("dangling string")), "x", false) {
        CommandOutcome::Failed(m) => assert_eq!(m, "command parse error: dangling string"),
        other => panic!("unexpected {other:?}"),
    }
    match command_outcome(Ok(vec![s("w"), s("a"), s("b")]), "w a b", false) {
        CommandOutcome::Failed(m) => assert_eq!(m, "usage: write <path>"),
        other => panic!("unexpected {other:?}"),
    }
}

#[test]
fn history_is_walked_and_left() {
    let mut c = CommandLine::new();
    for cmd in ["w a", "w b", "w b", ""] {
        for ch in cmd.chars() {
            c.type_char(ch, false, false);
        }
        let _ = c.execute();
    }
    assert_eq!(c.history, vec![s("w a"), s("w b")]);
    c.enter();
    for ch in "draft".chars() {
        c.type_char(ch, false, false);
    }
    c.history_previous();
    assert_eq!(line(&c), "w b");
    assert_eq!(c.cursor, 3);
    c.history_previous();
    assert_eq!(line(&c), "w a");
    c.history_previous();
    assert_eq!(line(&c), "w a");
    c.history_next();
    assert_eq!(line(&c), "w b");
    c.history_next();
    assert_eq!(line(&c), "draft");
    assert_eq!(c.history_index, None);
    c.history_next();
    assert_eq!(line(&c), "draft");
}

#[test]
fn view_modes_toggle() {
    assert_eq!(cycle_view_mode(ViewMode::Normal, Rotation::Clockwise), ViewMode::Expert);
    assert_eq!(cycle_view_mode(ViewMode::Expert, Rotation::CounterClockwise), ViewMode::Normal);
    assert!(InputMode::Normal < InputMode::Command);
}

#[test]
fn footer_heights() {
    assert_eq!(footer_height(500, false, 80), 1);
    assert_eq!(footer_height(100, true, 80), 2);
    assert_eq!(footer_height(80, true, 80), 1);
    assert_eq!(footer_height(1000, true, 80), 5);
    assert_eq!(footer_height(0, true, 80), 1);
    assert_eq!(footer_height(3, true, 0), 2);
}

#[test]
fn help_text_groups_and_sorts() {
    let bindings = vec![
        (s("k"), EqAction::SelectPrevious),
        (s("j"), EqAction::SelectNext),
        (s("<C-c>"), EqAction::Quit),
        (s("e"), EqAction::AdjustGain(Adjustment::Delta(s("0.1")))),
        (s("0"), EqAction::AdjustGain(Adjustment::Absolute(s("0.0")))),
        (s("d"), EqAction::AdjustGain(Adjustment::Delta(s("-0.1")))),
        (s(":"), EqAction::EnterCommandMode),
        (s("?"), EqAction::ToggleHelp),
    ];
    assert_eq!(
        generate_help_text(&bindings),
        "0 zero gain | : command | <C-c> quit | ? help | d/e gain | j next | k prev"
    );
    assert_eq!(generate_help_text(&vec![]), "");
}

#[test]
fn sync_after_actions() {
    let mut eq = pweq::eq::Eq::new(s("pweq"), vec![band("100", "0"), band("1000", "2")], s("0"));
    let before = snapshot(&eq);
    eq.set_gain(s("1.5"));
    assert_eq!(
        sync_plan(&before, &eq, true, false),
        SyncPlan { preamp: false, filter: Some(0), all: false, reload: false }
    );
    assert_eq!(
        sync_plan(&before, &eq, false, false),
        SyncPlan { preamp: false, filter: None, all: false, reload: true }
    );
    let before = snapshot(&eq);
    eq.set_preamp(s("-3"));
    eq.toggle_bypass();
    assert_eq!(
        sync_plan(&before, &eq, true, true),
        SyncPlan { preamp: true, filter: None, all: true, reload: false }
    );
    let before = snapshot(&eq);
    eq.add_filter(s("316.2"));
    assert_eq!(eq.filters.len(), 3);
    assert_eq!(eq.selected_idx, 1);
    assert_eq!(
        sync_plan(&before, &eq, true, false),
        SyncPlan { preamp: false, filter: None, all: false, reload: true }
    );
}

#[test]
fn sync_compares_numbers() {
    let mut eq = pweq::eq::Eq::new(s("pweq"), vec![band("100", "-6.20")], s("0"));
    let before = snapshot(&eq);
    eq.set_gain(s("-6.2"));
    eq.set_preamp(s("-0"));
    assert_eq!(
        sync_plan(&before, &eq, true, false),
        SyncPlan { preamp: false, filter: None, all: false, reload: false }
    );
    eq.set_gain(s("-6.21"));
    eq.set_preamp(s("0.5"));
    assert_eq!(
        sync_plan(&before, &eq, true, false),
        SyncPlan { preamp: true, filter: Some(0), all: false, reload: false }
    );
}

#[test]
fn values_compare_by_number() {
    assert!(values_equal("-6.20", "-6.2"));
    assert!(values_equal("-0", "0"));
    assert!(values_equal("+0.0", "-.0"));
    assert!(values_equal("007.50", "7.5"));
    assert!(values_equal("10", "10."));
    assert!(!values_equal("10", "1"));
    assert!(!values_equal("1.5", "-1.5"));
    assert!(!values_equal("0.1", "0.01"));
    assert!(!values_equal("100", "1e2"));
    assert!(values_equal("1e2", "1e2"));
    assert!(values_equal("abc", "abc"));
    assert!(!values_equal("abc", "abd"));
}

fn editor() -> EditorState {
    EditorState {
        eq: pweq::eq::Eq::new(s("pweq"), vec![band("100", "1"), band("1000", "-2")], s("0")),
        input_mode: InputMode::Normal,
        view_mode: ViewMode::Normal,
        show_help: false,
        command: CommandLine::new(),
    }
}

#[test]
fn editor_steps_change_the_state() {
    let mut e = editor();
    let fx = step(&mut e, EditorAction::ToggleHelp);
    assert!(e.show_help && fx.sync && !fx.quit && !fx.clear_status && fx.command.is_none());
    step(&mut e, EditorAction::CycleViewMode(Rotation::Clockwise));
    assert_eq!(e.view_mode, ViewMode::Expert);
    step(&mut e, EditorAction::SelectNext);
    assert_eq!(e.eq.selected_idx, 1);
    step(&mut e, EditorAction::SetGain(s("3.5")));
    assert_eq!(e.eq.filters[1].gain, "3.5");
    step(&mut e, EditorAction::ToggleMute);
    assert!(e.eq.filters[1].muted);
    step(&mut e, EditorAction::AddFilter(s("5000")));
    assert_eq!(e.eq.filters.len(), 3);
    assert_eq!(e.eq.filters[2].frequency, "5000");
    assert_eq!(e.eq.selected_idx, 2);
    step(&mut e, EditorAction::RemoveFilter);
    assert_eq!(e.eq.filters.len(), 2);
    step(&mut e, EditorAction::SetPreamp(s("-1.5")));
    assert_eq!(e.eq.preamp, "-1.5");
    let fx = step(&mut e, EditorAction::Quit);
    assert!(fx.quit && !fx.sync);
    let fx = step(&mut e, EditorAction::OpenAutoEq);
    assert!(fx.open_autoeq && fx.sync);
}

#[test]
fn editor_command_steps() {
    let mut e = editor();
    let fx = step(&mut e, EditorAction::ExecuteCommand);
    assert!(fx.command.is_none() && !fx.sync);
    let fx = step(&mut e, EditorAction::EnterCommandMode);
    assert!(fx.clear_status);
    assert_eq!(e.input_mode, InputMode::Command);
    e.command.type_char('q', false, false);
    let fx = step(&mut e, EditorAction::ExecuteCommand);
    assert!(matches!(fx.command, Some(CommandOutcome::Quit)));
    assert_eq!(e.input_mode, InputMode::Normal);
    step(&mut e, EditorAction::EnterCommandMode);
    step(&mut e, EditorAction::CommandHistoryPrevious);
    assert_eq!(e.command.buffer, vec!['q']);
    step(&mut e, EditorAction::EnterNormalMode);
    assert_eq!(e.input_mode, InputMode::Normal);
}
