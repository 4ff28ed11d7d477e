//! The interactive editor's own decisions: input and view modes, the help
//! line and its height, and what must be sent to PipeWire after an action.
use vstd::prelude::*;

use crate::actions::{eq_action_description, EqAction};
use crate::command::{
    deleted_backward, deleted_forward, entered, executes, history_back, history_forward,
    moved_end, moved_home, moved_left, moved_right, submitted, CommandLine, CommandOutcome,
    LineModel,
};
use crate::number::{same_value, values_equal};
use crate::eq::{adds_filter, deletes_selected, rotated, selected_band_set, Band, Rotation};
use crate::text::{
    append_chars, chars_eq, chars_of, join, join_chars, sort_texts, sorted_of, string_of,
    views,
};

verus! {

/// Which keys are in effect: the equalizer's, or the command line's.
#[derive(Debug, Clone, Copy, PartialEq, Eq, PartialOrd, Ord, Hash, Structural)]
pub enum InputMode {
    Normal,
    Command,
}

/// How much the band table shows.
#[derive(Debug, Clone, Copy, PartialEq, Eq, Structural)]
pub enum ViewMode {
    Normal,
    Expert,
}

/// The next view mode; with two modes either direction toggles.
pub fn cycle_view_mode(mode: ViewMode, rotation: Rotation) -> (r: ViewMode)
    ensures
        r == (match mode {
            ViewMode::Normal => ViewMode::Expert,
            ViewMode::Expert => ViewMode::Normal,
        }),
{
    match mode {
        ViewMode::Normal => ViewMode::Expert,
        ViewMode::Expert => ViewMode::Normal,
    }
}

/// Lines for the footer: one, or with help shown as many as the help text
/// needs at this width (rounded up), from 1 to 5.
pub fn footer_height(help_len: usize, show_help: bool, terminal_width: u16) -> (r: u16)
    requires
        show_help ==> help_len + terminal_width >= 1,
        show_help ==> help_len + terminal_width <= usize::MAX,
    ensures
        r == (if show_help {
            let w: int = if terminal_width == 0 { 1 } else { terminal_width as int };
            let lines = (help_len + terminal_width - 1) / w;
            if lines < 1 {
                1
            } else if lines > 5 {
                5
            } else {
                lines
            }
        } else {
            1
        }),
{
    if show_help {
        let w: usize = if terminal_width == 0 {
            1
        } else {
            terminal_width as usize
        };
        let lines = (help_len + terminal_width as usize - 1) / w;
        if lines < 1 {
            1
        } else if lines > 5 {
            5
        } else {
            lines as u16
        }
    } else {
        1
    }
}

/// What the help line calls an action: entering the command line is
/// "command", anything else its description (if it has one).
pub open spec fn help_label(a: EqAction) -> Option<Seq<char>> {
    match a {
        EqAction::EnterCommandMode => Some("command"@),
        _ => eq_action_description(a),
    }
}

/// The labels of the bindings, each once, in order of first use.
pub open spec fn labels_of(bs: Seq<(String, EqAction)>) -> Seq<Seq<char>>
    decreases bs.len(),
{
    if bs.len() == 0 {
        seq![]
    } else {
        let prev = labels_of(bs.drop_last());
        match help_label(bs.last().1) {
            Some(d) => if prev.contains(d) {
                prev
            } else {
                prev.push(d)
            },
            None => prev,
        }
    }
}

/// The keys bound to actions labelled `d`, in order.
pub open spec fn keys_with(bs: Seq<(String, EqAction)>, d: Seq<char>) -> Seq<Seq<char>>
    decreases bs.len(),
{
    if bs.len() == 0 {
        seq![]
    } else {
        let prev = keys_with(bs.drop_last(), d);
        if help_label(bs.last().1) == Some(d) {
            prev.push(bs.last().0@)
        } else {
            prev
        }
    }
}

/// The help item of a label: its keys in order, joined by `/`, then the
/// label.
pub open spec fn help_item(bs: Seq<(String, EqAction)>, d: Seq<char>) -> Seq<char> {
    join(sorted_of(keys_with(bs, d)), "/"@) + " "@ + d
}

/// The help line: the items of all labels in order, joined by ` | `.
pub open spec fn help_text(bs: Seq<(String, EqAction)>) -> Seq<char> {
    join(sorted_of(labels_of(bs).map_values(|d: Seq<char>| help_item(bs, d))), " | "@)
}

proof fn lemma_labels_distinct(bs: Seq<(String, EqAction)>)
    ensures
        forall|i: int, j: int|
            0 <= i < j < labels_of(bs).len() ==> labels_of(bs)[i] != labels_of(bs)[j],
    decreases bs.len(),
{
    if bs.len() > 0 {
        lemma_labels_distinct(bs.drop_last());
        let prev = labels_of(bs.drop_last());
        match help_label(bs.last().1) {
            Some(d) => if !prev.contains(d) {
                assert forall|i: int, j: int|
                    0 <= i < j < labels_of(bs).len() implies labels_of(bs)[i] != labels_of(bs)[j] by {
                    if j == prev.len() {
                        assert(labels_of(bs)[i] == prev[i]);
                    }
                }
            },
            None => {},
        }
    }
}

proof fn lemma_keys_without_label(bs: Seq<(String, EqAction)>, d: Seq<char>)
    requires
        !labels_of(bs).contains(d),
    ensures
        keys_with(bs, d) == Seq::<Seq<char>>::empty(),
    decreases bs.len(),
{
    if bs.len() > 0 {
        let prev = labels_of(bs.drop_last());
        assert(!prev.contains(d)) by {
            if prev.contains(d) {
                let k = choose|k: int| 0 <= k < prev.len() && prev[k] == d;
                match help_label(bs.last().1) {
                    Some(e) => if !prev.contains(e) {
                        assert(labels_of(bs)[k] == d);
                    } else {
                        assert(labels_of(bs)[k] == d);
                    },
                    None => {
                        assert(labels_of(bs)[k] == d);
                    },
                }
            }
        }
        lemma_keys_without_label(bs.drop_last(), d);
        if help_label(bs.last().1) == Some(d) {
            assert(labels_of(bs) == prev.push(d));
            assert(labels_of(bs)[prev.len() as int] == d);
        }
    }
}

fn help_label_of(a: &EqAction) -> (r: Option<String>)
    ensures
        match r {
            Some(t) => help_label(*a) == Some(t@),
            None => help_label(*a) is None,
        },
{
    match a {
        EqAction::EnterCommandMode => Some(string_of(chars_of("command"))),
        _ => a.description(),
    }
}

/// The help line of the equalizer's key bindings (key text and action):
/// for each label, its keys in order joined by `/` and the label; the
/// items in order, joined by ` | `.
pub fn generate_help_text(bindings: &Vec<(String, EqAction)>) -> (r: String)
    ensures
        r@ == help_text(bindings@),
{
    let ghost bs = bindings@;
    let mut groups: Vec<(Vec<char>, Vec<Vec<char>>)> = Vec::new();
    let mut i: usize = 0;
    while i < bindings.len()
        invariant
            bs == bindings@,
            i <= bs.len(),
            groups@.len() == labels_of(bs.take(i as int)).len(),
            forall|g: int|
                #![trigger groups@[g]]
                0 <= g < groups@.len() ==> groups@[g].0@ == labels_of(bs.take(i as int))[g] && views(
                    groups@[g].1@,
                ) == keys_with(bs.take(i as int), labels_of(bs.take(i as int))[g]),
        decreases bindings.len() - i,
    {
        let ghost t = bs.take(i as int);
        let ghost t1 = bs.take(i + 1);
        assert(t1.drop_last() =~= t);
        assert(t1.last() == bs[i as int]);
        proof {
            lemma_labels_distinct(t);
        }
        match help_label_of(&bindings[i].1) {
            None => {
                assert(labels_of(t1) == labels_of(t));
                assert forall|g: int| 0 <= g < groups@.len() implies keys_with(t1, #[trigger] labels_of(t1)[g])
                    == keys_with(t, labels_of(t)[g]) by {}
            },
            Some(label) => {
                let lv = chars_of(label.as_str());
                let mut g: usize = 0;
                while g < groups.len() && !chars_eq(&groups[g].0, &lv)
                    invariant
                        g <= groups@.len(),
                        forall|h: int| 0 <= h < g ==> groups@[h].0@ != lv@,
                    decreases groups.len() - g,
                {
                    g += 1;
                }
                let key = chars_of(bindings[i].0.as_str());
                if g < groups.len() {
                    let ghost lt = labels_of(t);
                    assert(lt.contains(lv@)) by {
                        assert(lt[g as int] == lv@);
                    }
                    assert(labels_of(t1) == lt);
                    let ghost old_groups = groups@;
                    let (name, mut keys) = groups.remove(g);
                    keys.push(key);
                    groups.insert(g, (name, keys));
                    assert forall|h: int|
                        #![trigger groups@[h]]
                        0 <= h < groups@.len() implies groups@[h].0@ == labels_of(t1)[h] && views(
                            groups@[h].1@,
                        ) == keys_with(t1, labels_of(t1)[h]) by {
                        if h == g {
                            assert(views(groups@[h].1@) =~= views(old_groups[h].1@).push(
                                bs[i as int].0@,
                            ));
                        } else {
                            assert(groups@[h] == old_groups[h]);
                            assert(lt[h] != lt[g as int]);
                        }
                    }
                } else {
                    let ghost lt = labels_of(t);
                    assert(!lt.contains(lv@)) by {
                        if lt.contains(lv@) {
                            let k = choose|k: int| 0 <= k < lt.len() && lt[k] == lv@;
                            assert(groups@[k].0@ == lv@);
                        }
                    }
                    assert(labels_of(t1) == lt.push(lv@));
                    proof {
                        lemma_keys_without_label(t, lv@);
                    }
                    let ghost old_groups = groups@;
                    let mut keys: Vec<Vec<char>> = Vec::new();
                    keys.push(key);
                    groups.push((lv, keys));
                    assert forall|h: int|
                        #![trigger groups@[h]]
                        0 <= h < groups@.len() implies groups@[h].0@ == labels_of(t1)[h] && views(
                            groups@[h].1@,
                        ) == keys_with(t1, labels_of(t1)[h]) by {
                        if h == old_groups.len() {
                            assert(views(groups@[h].1@) =~= seq![bs[i as int].0@]);
                            assert(keys_with(t, lv@) =~= Seq::<Seq<char>>::empty());
                            assert(Seq::<Seq<char>>::empty().push(bs[i as int].0@) =~= seq![
                                bs[i as int].0@,
                            ]);
                        } else {
                            assert(groups@[h] == old_groups[h]);
                            assert(lt[h] != lv@);
                        }
                    }
                }
            },
        }
        i += 1;
    }
    assert(bs.take(bs.len() as int) =~= bs);
    let ghost labels = labels_of(bs);
    let ghost og = groups@;
    let mut items: Vec<Vec<char>> = Vec::new();
    let slash = chars_of("/");
    let space = chars_of(" ");
    let ghost g: int = 0;
    assert(og.skip(0) =~= og);
    while groups.len() > 0
        invariant
            0 <= g <= og.len(),
            groups@ == og.skip(g),
            og.len() == labels.len(),
            slash@ == "/"@,
            space@ == " "@,
            forall|h: int|
                #![trigger og[h]]
                0 <= h < og.len() ==> og[h].0@ == labels[h] && views(og[h].1@) == keys_with(
                    bs,
                    labels[h],
                ),
            views(items@) == labels.take(g).map_values(|d: Seq<char>| help_item(bs, d)),
        decreases groups.len(),
    {
        let (label, keys) = groups.remove(0);
        assert(og[g] == (label, keys));
        let sorted = sort_texts(keys);
        let mut item = join_chars(&sorted, &slash);
        append_chars(&mut item, &space);
        append_chars(&mut item, &label);
        assert(item@ == help_item(bs, labels[g]));
        let ghost before = views(items@);
        items.push(item);
        proof {
            assert(views(items@) =~= before.push(item@));
            assert(labels.take(g + 1) =~= labels.take(g).push(labels[g]));
            assert(labels.take(g + 1).map_values(|d: Seq<char>| help_item(bs, d)) =~= labels.take(
                g,
            ).map_values(|d: Seq<char>| help_item(bs, d)).push(help_item(bs, labels[g])));
            assert(views(items@) =~= labels.take(g + 1).map_values(|d: Seq<char>| help_item(bs, d)));
            g = g + 1;
            assert(groups@ =~= og.skip(g));
        }
    }
    assert(labels.take(g) =~= labels);
    let sorted_items = sort_texts(items);
    let sep = chars_of(" | ");
    string_of(join_chars(&sorted_items, &sep))
}

/// Two bands hold the same settings: the same numbers, type and mute.
pub open spec fn same_band(a: Band, b: Band) -> bool {
    &&& same_value(a.frequency@, b.frequency@)
    &&& same_value(a.gain@, b.gain@)
    &&& same_value(a.q@, b.q@)
    &&& a.filter_type == b.filter_type
    &&& a.muted == b.muted
}

fn bands_same(a: &Band, b: &Band) -> (r: bool)
    ensures
        r == same_band(*a, *b),
{
    values_equal(a.frequency.as_str(), b.frequency.as_str()) && values_equal(
        a.gain.as_str(),
        b.gain.as_str(),
    ) && values_equal(a.q.as_str(), b.q.as_str()) && a.filter_type == b.filter_type && a.muted == b.muted
}

/// The equalizer as an action found it: the selection, the selected band,
/// preamp, bypass and band count.
#[derive(Debug)]
pub struct Snapshot {
    pub selected_idx: usize,
    pub band: Band,
    pub preamp: String,
    pub bypassed: bool,
    pub filter_count: usize,
}

/// What the equalizer looks like before an action.
pub fn snapshot(eq: &crate::eq::Eq) -> (s: Snapshot)
    requires
        eq.selected_idx < eq.filters@.len(),
    ensures
        s.selected_idx == eq.selected_idx,
        s.band == eq.filters@[eq.selected_idx as int],
        s.preamp == eq.preamp,
        s.bypassed == eq.bypassed,
        s.filter_count == eq.filters@.len(),
{
    Snapshot {
        selected_idx: eq.selected_idx,
        band: eq.filters[eq.selected_idx].copy(),
        preamp: eq.preamp.clone(),
        bypassed: eq.bypassed,
        filter_count: eq.filters.len(),
    }
}

/// What to send to PipeWire after an action: the preamp, one band, every
/// band, or a new filter-chain module.
#[derive(Debug, Clone, Copy, PartialEq, Eq, Structural)]
pub struct SyncPlan {
    pub preamp: bool,
    pub filter: Option<usize>,
    pub all: bool,
    pub reload: bool,
}

/// Values are compared by the number they denote (see [`same_value`]).
/// With an active node: a changed preamp is sent, a changed band is sent
/// when the selection stayed on it, and a changed bypass sends every band.
/// A module is (re)loaded when the equalizer does something and either the
/// band count changed or no node is active.
pub fn sync_plan(before: &Snapshot, eq: &crate::eq::Eq, active: bool, noop: bool) -> (p: SyncPlan)
    requires
        eq.selected_idx == before.selected_idx ==> eq.selected_idx < eq.filters@.len(),
    ensures
        p.preamp == (active && !same_value(before.preamp@, eq.preamp@)),
        p.filter == (if active && eq.selected_idx == before.selected_idx && !same_band(
            eq.filters@[eq.selected_idx as int],
            before.band,
        ) {
            Some(eq.selected_idx)
        } else {
            None
        }),
        p.all == (active && before.bypassed != eq.bypassed),
        p.reload == (!noop && (before.filter_count != eq.filters@.len() || !active)),
{
    let mut plan = SyncPlan { preamp: false, filter: None, all: false, reload: false };
    if active {
        plan.preamp = !values_equal(before.preamp.as_str(), eq.preamp.as_str());
        if eq.selected_idx == before.selected_idx && !bands_same(
            &eq.filters[eq.selected_idx],
            &before.band,
        ) {
            plan.filter = Some(eq.selected_idx);
        }
        plan.all = before.bypassed != eq.bypassed;
    }
    plan.reload = !noop && (before.filter_count != eq.filters.len() || !active);
    plan
}


/// What a key asks of the editor, with every value it needs already
/// computed: the frequency of a new band and the new value of an adjusted
/// parameter.
#[derive(Debug)]
pub enum EditorAction {
    EnterNormalMode,
    EnterCommandMode,
    ClearStatus,
    ToggleHelp,
    Quit,
    SelectNext,
    SelectPrevious,
    /// Add a band at this frequency (Hz, as decimal text).
    AddFilter(String),
    RemoveFilter,
    SelectIndex(usize),
    SetFrequency(String),
    SetGain(String),
    SetQ(String),
    SetPreamp(String),
    CycleFilterType(Rotation),
    ToggleBypass,
    ToggleMute,
    CycleViewMode(Rotation),
    OpenAutoEq,
    ExecuteCommand,
    CommandHistoryPrevious,
    CommandHistoryNext,
    DeleteCharBackward,
    DeleteCharForward,
    MoveCursorLeft,
    MoveCursorRight,
    MoveCursorHome,
    MoveCursorEnd,
}

/// The editor: the equalizer, the modes, the help toggle and the command
/// line.
pub struct EditorState {
    pub eq: crate::eq::Eq,
    pub input_mode: InputMode,
    pub view_mode: ViewMode,
    pub show_help: bool,
    pub command: CommandLine,
}

impl EditorState {
    pub open spec fn wf(&self) -> bool {
        self.eq.wf() && self.command.wf()
    }
}

/// What the program around the editor does after a step: stop, clear the
/// status line, open the AutoEQ browser, carry out a submitted command, and
/// bring PipeWire in line with the equalizer (`sync`).
#[derive(Debug)]
pub struct Effects {
    pub quit: bool,
    pub clear_status: bool,
    pub open_autoeq: bool,
    pub command: Option<CommandOutcome>,
    pub sync: bool,
}

/// The type of the selected band cycled; with no band selected, nothing
/// changes.
pub open spec fn type_cycled(e0: crate::eq::Eq, e1: crate::eq::Eq, r: Rotation) -> bool {
    selected_band_set(e0, e1, |b: Band| Band { filter_type: rotated(b.filter_type, r), ..b })
}

/// The selected band muted or unmuted; with no band selected, nothing
/// changes.
pub open spec fn mute_toggled(e0: crate::eq::Eq, e1: crate::eq::Eq) -> bool {
    selected_band_set(e0, e1, |b: Band| Band { muted: !b.muted, ..b })
}

/// The equalizer after an action.
pub open spec fn eq_after(e0: crate::eq::Eq, e1: crate::eq::Eq, a: EditorAction) -> bool {
    let n = e0.filters@.len();
    match a {
        EditorAction::SelectNext => e1 == (crate::eq::Eq {
            selected_idx: if e0.selected_idx + 1 < n {
                (e0.selected_idx + 1) as usize
            } else {
                e0.selected_idx
            },
            ..e0
        }),
        EditorAction::SelectPrevious => e1 == (crate::eq::Eq {
            selected_idx: if e0.selected_idx > 0 {
                (e0.selected_idx - 1) as usize
            } else {
                0
            },
            ..e0
        }),
        EditorAction::SelectIndex(i) => e1 == (crate::eq::Eq {
            selected_idx: if i < n {
                i
            } else {
                e0.selected_idx
            },
            ..e0
        }),
        EditorAction::AddFilter(f) => adds_filter(e0, e1, f),
        EditorAction::RemoveFilter => if n <= 1 || e0.selected_idx < n {
            deletes_selected(e0, e1)
        } else {
            e1 == e0
        },
        EditorAction::SetFrequency(t) => selected_band_set(e0, e1, |b: Band| Band { frequency: t, ..b }),
        EditorAction::SetGain(t) => selected_band_set(e0, e1, |b: Band| Band { gain: t, ..b }),
        EditorAction::SetQ(t) => selected_band_set(e0, e1, |b: Band| Band { q: t, ..b }),
        EditorAction::SetPreamp(t) => e1 == (crate::eq::Eq { preamp: t, ..e0 }),
        EditorAction::CycleFilterType(r) => type_cycled(e0, e1, r),
        EditorAction::ToggleBypass => e1 == (crate::eq::Eq { bypassed: !e0.bypassed, ..e0 }),
        EditorAction::ToggleMute => mute_toggled(e0, e1),
        _ => e1 == e0,
    }
}

/// The command line after an action in input mode `mode`.
pub open spec fn line_after(l: LineModel, mode: InputMode, a: EditorAction) -> LineModel {
    match a {
        EditorAction::EnterCommandMode => entered(l),
        EditorAction::ExecuteCommand => if mode == InputMode::Command {
            submitted(l)
        } else {
            l
        },
        EditorAction::CommandHistoryPrevious => history_back(l),
        EditorAction::CommandHistoryNext => history_forward(l),
        EditorAction::DeleteCharBackward => deleted_backward(l),
        EditorAction::DeleteCharForward => deleted_forward(l),
        EditorAction::MoveCursorLeft => moved_left(l),
        EditorAction::MoveCursorRight => moved_right(l),
        EditorAction::MoveCursorHome => moved_home(l),
        EditorAction::MoveCursorEnd => moved_end(l),
        _ => l,
    }
}

/// The input mode after an action: the mode asked for, and back to the
/// equalizer's keys when a command is submitted.
pub open spec fn mode_after(mode: InputMode, a: EditorAction) -> InputMode {
    match a {
        EditorAction::EnterNormalMode => InputMode::Normal,
        EditorAction::EnterCommandMode => InputMode::Command,
        EditorAction::ExecuteCommand => InputMode::Normal,
        _ => mode,
    }
}

/// The view mode after an action.
pub open spec fn view_after(v: ViewMode, a: EditorAction) -> ViewMode {
    match a {
        EditorAction::CycleViewMode(_) => match v {
            ViewMode::Normal => ViewMode::Expert,
            ViewMode::Expert => ViewMode::Normal,
        },
        _ => v,
    }
}

/// The effects of an action, the submitted command's outcome aside.
pub open spec fn effects_of(mode: InputMode, a: EditorAction, fx: Effects) -> bool {
    &&& fx.quit == (a is Quit)
    &&& fx.clear_status == (a is ClearStatus || a is EnterCommandMode)
    &&& fx.open_autoeq == (a is OpenAutoEq)
    &&& fx.sync == !(a is Quit || a is ExecuteCommand)
    &&& (fx.command is Some) == (a is ExecuteCommand && mode == InputMode::Command)
}

/// Carries out one action on the editor and says what the program around
/// it must do next.
pub fn step(s: &mut EditorState, a: EditorAction) -> (fx: Effects)
    requires
        old(s).wf(),
    ensures
        final(s).wf(),
        eq_after(old(s).eq, final(s).eq, a),
        final(s).command@ == line_after(old(s).command@, old(s).input_mode, a),
        final(s).input_mode == mode_after(old(s).input_mode, a),
        final(s).view_mode == view_after(old(s).view_mode, a),
        final(s).show_help == (if a is ToggleHelp {
            !old(s).show_help
        } else {
            old(s).show_help
        }),
        effects_of(old(s).input_mode, a, fx),
        fx.command matches Some(r) ==> executes(old(s).command@, r),
{
    let ghost a0 = a;
    let mut fx = Effects { quit: false, clear_status: false, open_autoeq: false, command: None, sync: true };
    match a {
        EditorAction::EnterNormalMode => {
            s.input_mode = InputMode::Normal;
        },
        EditorAction::EnterCommandMode => {
            s.command.enter();
            s.input_mode = InputMode::Command;
            fx.clear_status = true;
        },
        EditorAction::ClearStatus => {
            fx.clear_status = true;
        },
        EditorAction::ToggleHelp => {
            s.show_help = !s.show_help;
        },
        EditorAction::Quit => {
            fx.quit = true;
            fx.sync = false;
        },
        EditorAction::SelectNext => {
            s.eq.select_next_filter();
        },
        EditorAction::SelectPrevious => {
            s.eq.select_prev_filter();
        },
        EditorAction::AddFilter(f) => {
            s.eq.add_filter(f);
        },
        EditorAction::RemoveFilter => {
            if s.eq.filters.len() <= 1 || s.eq.selected_idx < s.eq.filters.len() {
                s.eq.delete_selected_filter();
            }
        },
        EditorAction::SelectIndex(i) => {
            s.eq.select_index(i);
        },
        EditorAction::SetFrequency(t) => {
            s.eq.set_frequency(t);
        },
        EditorAction::SetGain(t) => {
            s.eq.set_gain(t);
        },
        EditorAction::SetQ(t) => {
            s.eq.set_q(t);
        },
        EditorAction::SetPreamp(t) => {
            s.eq.set_preamp(t);
        },
        EditorAction::CycleFilterType(r) => {
            s.eq.cycle_filter_type(r);
        },
        EditorAction::ToggleBypass => {
            s.eq.toggle_bypass();
        },
        EditorAction::ToggleMute => {
            s.eq.toggle_mute();
        },
        EditorAction::CycleViewMode(r) => {
            s.view_mode = cycle_view_mode(s.view_mode, r);
        },
        EditorAction::OpenAutoEq => {
            fx.open_autoeq = true;
        },
        EditorAction::ExecuteCommand => {
            fx.sync = false;
            if s.input_mode == InputMode::Command {
                s.input_mode = InputMode::Normal;
                fx.command = Some(s.command.execute());
            } else {
                s.input_mode = InputMode::Normal;
            }
        },
        EditorAction::CommandHistoryPrevious => {
            s.command.history_previous();
        },
        EditorAction::CommandHistoryNext => {
            s.command.history_next();
        },
        EditorAction::DeleteCharBackward => {
            s.command.delete_backward();
        },
        EditorAction::DeleteCharForward => {
            s.command.delete_forward();
        },
        EditorAction::MoveCursorLeft => {
            s.command.move_left();
        },
        EditorAction::MoveCursorRight => {
            s.command.move_right();
        },
        EditorAction::MoveCursorHome => {
            s.command.move_home();
        },
        EditorAction::MoveCursorEnd => {
            s.command.move_end();
        },
    }
    fx
}

} // verus!
