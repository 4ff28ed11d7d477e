//! The command line of the interactive editor: cursor movement, editing,
//! history, and what a submitted `:` command asks for.
use vstd::prelude::*;

use crate::text::{chars_of, concat_str, str_eq, string_of};

verus! {

/// The characters of each string, in order.
pub open spec fn strings_view(v: Seq<String>) -> Seq<Seq<char>> {
    v.map_values(|s: String| s@)
}

/// No history entry is empty, and none repeats the entry before it.
pub open spec fn history_ok(h: Seq<Seq<char>>) -> bool {
    forall|i: int| 0 <= i < h.len() ==> h[i].len() > 0 && (i > 0 ==> h[i - 1] != h[i])
}

/// The command line as text: the line being edited, the cursor (a
/// character position), the submitted commands, the history entry shown
/// (if any) and the line that was being typed before the history was
/// entered.
pub ghost struct LineModel {
    pub buffer: Seq<char>,
    pub cursor: nat,
    pub history: Seq<Seq<char>>,
    pub index: Option<nat>,
    pub scratch: Seq<char>,
}

/// The cursor lies within the line, a shown history entry exists, and the
/// history has no empty entry and no entry twice in a row.
pub open spec fn line_ok(m: LineModel) -> bool {
    &&& m.cursor <= m.buffer.len()
    &&& (m.index matches Some(i) ==> i < m.history.len())
    &&& history_ok(m.history)
}

/// Entering command mode: an empty line, the cursor at its start, no
/// history entry shown.
pub open spec fn entered(m: LineModel) -> LineModel {
    LineModel { buffer: seq![], cursor: 0, index: None, scratch: seq![], ..m }
}

/// One step back in the history: from the line being typed to the newest
/// entry (keeping the line aside), or from an entry to the one before it.
pub open spec fn history_back(m: LineModel) -> LineModel {
    if m.history.len() == 0 {
        m
    } else {
        match m.index {
            None => LineModel {
                buffer: m.history.last(),
                cursor: m.history.last().len(),
                index: Some((m.history.len() - 1) as nat),
                scratch: m.buffer,
                ..m
            },
            Some(i) => if i > 0 {
                LineModel {
                    buffer: m.history[i - 1],
                    cursor: m.history[i - 1].len(),
                    index: Some((i - 1) as nat),
                    ..m
                }
            } else {
                m
            },
        }
    }
}

/// One step forward in the history: to the next entry, or past the newest
/// back to the line that was being typed.
pub open spec fn history_forward(m: LineModel) -> LineModel {
    match m.index {
        None => m,
        Some(i) => if i + 1 < m.history.len() {
            LineModel {
                buffer: m.history[(i + 1) as int],
                cursor: m.history[(i + 1) as int].len(),
                index: Some((i + 1) as nat),
                ..m
            }
        } else {
            LineModel { buffer: m.scratch, cursor: m.scratch.len(), index: None, scratch: seq![], ..m }
        },
    }
}

/// Backspace: the character before the cursor goes.
pub open spec fn deleted_backward(m: LineModel) -> LineModel {
    if m.cursor > 0 && m.buffer.len() > 0 {
        LineModel {
            buffer: m.buffer.remove(m.cursor - 1),
            cursor: (m.cursor - 1) as nat,
            index: None,
            ..m
        }
    } else {
        LineModel { index: None, ..m }
    }
}

/// Delete: the character under the cursor goes.
pub open spec fn deleted_forward(m: LineModel) -> LineModel {
    if m.cursor < m.buffer.len() {
        LineModel { buffer: m.buffer.remove(m.cursor as int), index: None, ..m }
    } else {
        LineModel { index: None, ..m }
    }
}

pub open spec fn moved_left(m: LineModel) -> LineModel {
    LineModel { cursor: if m.cursor > 0 { (m.cursor - 1) as nat } else { 0 }, ..m }
}

pub open spec fn moved_right(m: LineModel) -> LineModel {
    LineModel { cursor: if m.cursor < m.buffer.len() { m.cursor + 1 } else { m.cursor }, ..m }
}

pub open spec fn moved_home(m: LineModel) -> LineModel {
    LineModel { cursor: 0, ..m }
}

pub open spec fn moved_end(m: LineModel) -> LineModel {
    LineModel { cursor: m.buffer.len(), ..m }
}

/// Typing a character inserts it at the cursor and moves past it.
pub open spec fn typed(m: LineModel, c: char) -> LineModel {
    LineModel { buffer: m.buffer.insert(m.cursor as int, c), cursor: m.cursor + 1, index: None, ..m }
}

/// The text `!!`, which repeats the previous command with force.
pub open spec fn repeat_line() -> Seq<char> {
    seq!['!', '!']
}

/// The command that submitting the line runs, and whether it is forced:
/// the line itself, or for `!!` the newest history entry with force
/// (`None` when there is none).
pub open spec fn chosen_command(m: LineModel) -> Option<(Seq<char>, bool)> {
    if m.buffer == repeat_line() {
        if m.history.len() == 0 {
            None
        } else {
            Some((m.history.last(), true))
        }
    } else {
        Some((m.buffer, false))
    }
}

/// The command line after submitting: the line is empty, and a non-empty
/// line other than `!!` joins the history unless it repeats the newest
/// entry.
pub open spec fn submitted(m: LineModel) -> LineModel {
    let h = if m.buffer != repeat_line() && m.buffer.len() > 0 && (m.history.len() == 0
        || m.history.last() != m.buffer) {
        m.history.push(m.buffer)
    } else {
        m.history
    };
    LineModel { buffer: seq![], cursor: 0, history: h, ..m }
}

/// The editable command line of the editor.
pub struct CommandLine {
    pub buffer: Vec<char>,
    pub cursor: usize,
    pub history: Vec<String>,
    pub history_index: Option<usize>,
    pub scratch: Vec<char>,
}

impl View for CommandLine {
    type V = LineModel;

    open spec fn view(&self) -> LineModel {
        LineModel {
            buffer: self.buffer@,
            cursor: self.cursor as nat,
            history: strings_view(self.history@),
            index: match self.history_index {
                Some(i) => Some(i as nat),
                None => None,
            },
            scratch: self.scratch@,
        }
    }
}

/// `r` is what submitting the line `m` asks for: `no previous command` for a
/// repeat with an empty history; otherwise the words of the chosen command,
/// once expanded as [`expansion_of`] allows (a plain command expands to
/// itself), read as [`outcome_of`] says, unless expansion failed, which needs a `$`.
pub open spec fn executes(m: LineModel, r: CommandOutcome) -> bool {
    match chosen_command(m) {
        None => r@ == OutcomeModel::Failed("no previous command"@),
        Some((cmd, force)) => {
            &&& (r is ExpandFailed ==> cmd.contains('$'))
            &&& (!(r is ExpandFailed) ==> exists|x: Seq<char>|
                expansion_of(cmd, x) && r@ == outcome_of(
                    #[trigger] shellish_words(x, true),
                    x,
                    force,
                ))
        },
    }
}

/// What a submitted command asks for.
#[derive(Debug)]
pub enum CommandOutcome {
    /// `q` or `quit`.
    Quit,
    /// `w`, `write`, `w!` or `write!` with one path; `!` overwrites.
    Write { path: String, force: bool },
    /// A message for the status line.
    Failed(String),
    /// Expanding `~` or a variable failed; the editor stops with this error.
    ExpandFailed(String),
}

pub ghost enum OutcomeModel {
    Quit,
    Write { path: Seq<char>, force: bool },
    Failed(Seq<char>),
    ExpandFailed(Seq<char>),
}

impl View for CommandOutcome {
    type V = OutcomeModel;

    open spec fn view(&self) -> OutcomeModel {
        match self {
            CommandOutcome::Quit => OutcomeModel::Quit,
            CommandOutcome::Write { path, force } => OutcomeModel::Write { path: path@, force: *force },
            CommandOutcome::Failed(m) => OutcomeModel::Failed(m@),
            CommandOutcome::ExpandFailed(m) => OutcomeModel::ExpandFailed(m@),
        }
    }
}

/// The words of a command, with `!` added to the first when forced.
pub open spec fn forced_words(words: Seq<Seq<char>>, force: bool) -> Seq<Seq<char>> {
    if force && words.len() > 0 {
        words.update(0, words[0].push('!'))
    } else {
        words
    }
}

pub open spec fn is_quit(w: Seq<char>) -> bool {
    w == "q"@ || w == "quit"@
}

pub open spec fn is_write(w: Seq<char>) -> bool {
    w == "w"@ || w == "write"@ || w == "w!"@ || w == "write!"@
}

/// What the words of a command ask for, given the parse of the expanded
/// command line `expanded`.
pub open spec fn outcome_of(
    parsed: Result<Seq<Seq<char>>, Seq<char>>,
    expanded: Seq<char>,
    force: bool,
) -> OutcomeModel {
    match parsed {
        Err(e) => OutcomeModel::Failed("command parse error: "@ + e),
        Ok(ws) => {
            let words = forced_words(ws, force);
            if words.len() == 1 && is_quit(words[0]) {
                OutcomeModel::Quit
            } else if words.len() >= 1 && is_write(words[0]) {
                if words.len() == 2 {
                    OutcomeModel::Write { path: words[1], force: words[0].last() == '!' }
                } else {
                    OutcomeModel::Failed("usage: write <path>"@)
                }
            } else {
                OutcomeModel::Failed("unknown command: "@ + expanded)
            }
        },
    }
}

/// What `shellish_parse::parse` returns for a text and its
/// strict-escapes option: the words, or the error's message.
pub uninterp spec fn shellish_words(input: Seq<char>, strict_escapes: bool) -> Result<
    Seq<Seq<char>>,
    Seq<char>,
>;

/// `shellish_parse::parse`: splits a command line into words as a shell
/// would; an error is given by its `Display` text.
#[verifier::external_body]
fn parse_words(input: &str, strict_escapes: bool) -> (r: Result<Vec<String>, String>)
    ensures
        match r {
            Ok(w) => shellish_words(input@, strict_escapes) == Ok::<Seq<Seq<char>>, Seq<char>>(
                strings_view(w@),
            ),
            Err(e) => shellish_words(input@, strict_escapes) == Err::<Seq<Seq<char>>, Seq<char>>(
                e@,
            ),
        },
{
    match shellish_parse::parse(input, strict_escapes) {
        Ok(words) => Ok(words),
        Err(e) => Err(e.to_string()),
    }
}

/// Text that neither names a variable nor starts with `~`.
pub open spec fn plain_text(s: Seq<char>) -> bool {
    !s.contains('$') && !(s.len() > 0 && s[0] == '~')
}

/// The position of the first `$` in `s`, or its length when it has none.
pub open spec fn first_dollar(s: Seq<char>) -> int
    decreases s.len(),
{
    if s.len() == 0 || s[0] == '$' {
        0
    } else {
        1 + first_dollar(s.drop_first())
    }
}

/// `s` is `~` alone or starts with `~` and a path separator: the forms
/// whose `~` stands for the home directory.
pub open spec fn home_tilde(s: Seq<char>) -> bool {
    s.len() > 0 && s[0] == '~' && (s.len() == 1 || s[1] == '/' || s[1] == '\\')
}

/// What expanding `s` may give as `x`, whatever the environment holds:
/// - without `$`, the text itself, or for a home `~` some text (the home
///   directory) followed by everything after the `~`;
/// - with `$` and no leading `~`, a text that keeps everything before the
///   first `$`;
/// - with `$` and a leading `~`, either that, or some text followed by a
///   text that starts with what stands between the `~` and the first `$`.
pub open spec fn expansion_of(s: Seq<char>, x: Seq<char>) -> bool {
    let k = first_dollar(s);
    if !s.contains('$') {
        x == s || (home_tilde(s) && exists|h: Seq<char>| x == #[trigger] (h + s.drop_first()))
    } else if !(s.len() > 0 && s[0] == '~') {
        s.take(k).is_prefix_of(x)
    } else {
        s.take(k).is_prefix_of(x) || exists|h: Seq<char>, t: Seq<char>|
            x == #[trigger] (h + t) && s.subrange(1, k).is_prefix_of(t)
    }
}

/// Writing with a path: `w PATH` and `write PATH` ask for a plain write,
/// `w! PATH` and `write! PATH` for a forced one; a command repeated with
/// `!!` forces a plain write too. The path is the second word as parsed,
/// whatever it is and whatever the expanded line was.
pub proof fn lemma_write_commands(path: Seq<char>, expanded: Seq<char>)
    ensures
        outcome_of(Ok(seq!["w"@, path]), expanded, false) == (OutcomeModel::Write {
            path,
            force: false,
        }),
        outcome_of(Ok(seq!["write"@, path]), expanded, false) == (OutcomeModel::Write {
            path,
            force: false,
        }),
        outcome_of(Ok(seq!["w!"@, path]), expanded, false) == (OutcomeModel::Write {
            path,
            force: true,
        }),
        outcome_of(Ok(seq!["write!"@, path]), expanded, false) == (OutcomeModel::Write {
            path,
            force: true,
        }),
        outcome_of(Ok(seq!["w"@, path]), expanded, true) == (OutcomeModel::Write {
            path,
            force: true,
        }),
        outcome_of(Ok(seq!["write"@, path]), expanded, true) == (OutcomeModel::Write {
            path,
            force: true,
        }),
{
    reveal_strlit("q");
    reveal_strlit("quit");
    reveal_strlit("w");
    reveal_strlit("write");
    reveal_strlit("w!");
    reveal_strlit("write!");
    assert("w"@.push('!') =~= "w!"@);
    assert("write"@.push('!') =~= "write!"@);
    assert(seq!["w"@, path].update(0, "w"@.push('!')) =~= seq!["w!"@, path]);
    assert(seq!["write"@, path].update(0, "write"@.push('!')) =~= seq!["write!"@, path]);
    assert("w"@.last() != '!');
    assert("write"@.last() != '!');
    assert("w!"@.last() == '!');
    assert("write!"@.last() == '!');
    assert("w"@ != "q"@ && "w"@ != "quit"@);
    assert("w!"@.len() != "q"@.len() && "w!"@ != "quit"@);
    assert("write"@.len() != "quit"@.len() && "write"@ != "q"@);
    assert("write!"@ != "q"@ && "write!"@.len() != "quit"@.len());
}

/// A plain text has one expansion: itself.
pub proof fn lemma_plain_expands_to_itself(s: Seq<char>, x: Seq<char>)
    requires
        plain_text(s),
    ensures
        expansion_of(s, x) <==> x == s,
{
}

/// `shellexpand::full`: expands a leading `~` to the home directory and
/// `$NAME` or `${NAME}` to the environment's value. What comes back
/// depends on the environment (the variables' values and the home
/// directory are not stated); the claim is what its source shows for
/// every environment: the result is an [`expansion_of`] the text, and an
/// error needs a `$`.
#[verifier::external_body]
fn expand(s: &str) -> (r: Result<String, String>)
    ensures
        match r {
            Ok(x) => expansion_of(s@, x@),
            Err(_) => s@.contains('$'),
        },
{
    match shellexpand::full(s) {
        Ok(x) => Ok(x.into_owned()),
        Err(e) => Err(e.to_string()),
    }
}

/// What the words of an expanded command ask for: `q`/`quit`, or a write
/// with its path; otherwise the message for the status line.
pub fn command_outcome(parsed: Result<Vec<String>, String>, expanded: &str, force: bool) -> (r:
    CommandOutcome)
    ensures
        r@ == outcome_of(
            match parsed {
                Ok(w) => Ok::<Seq<Seq<char>>, Seq<char>>(strings_view(w@)),
                Err(e) => Err::<Seq<Seq<char>>, Seq<char>>(e@),
            },
            expanded@,
            force,
        ),
{
    proof {
        reveal_strlit("command parse error: ");
        reveal_strlit("usage: write <path>");
        reveal_strlit("unknown command: ");
        reveal_strlit("q");
        reveal_strlit("quit");
        reveal_strlit("w");
        reveal_strlit("write");
        reveal_strlit("w!");
        reveal_strlit("write!");
    }
    match parsed {
        Err(e) => CommandOutcome::Failed(concat_str("command parse error: ", e.as_str())),
        Ok(mut words) => {
            let ghost ws = strings_view(words@);
            if force && words.len() > 0 {
                let first = concat_str(words[0].as_str(), "!");
                proof {
                    reveal_strlit("!");
                    assert(first@ =~= ws[0].push('!'));
                }
                words.set(0, first);
            }
            assert(strings_view(words@) =~= forced_words(ws, force));
            if words.len() == 1 && (str_eq(words[0].as_str(), "q") || str_eq(
                words[0].as_str(),
                "quit",
            )) {
                CommandOutcome::Quit
            } else if words.len() >= 1 && (str_eq(words[0].as_str(), "w") || str_eq(
                words[0].as_str(),
                "write",
            ) || str_eq(words[0].as_str(), "w!") || str_eq(words[0].as_str(), "write!")) {
                if words.len() == 2 {
                    let w0 = chars_of(words[0].as_str());
                    let force_write = w0[w0.len() - 1] == '!';
                    let path = words.pop().unwrap();
                    CommandOutcome::Write { path, force: force_write }
                } else {
                    CommandOutcome::Failed(string_of(chars_of("usage: write <path>")))
                }
            } else {
                CommandOutcome::Failed(concat_str("unknown command: ", expanded))
            }
        },
    }
}

impl CommandLine {
    pub open spec fn wf(&self) -> bool {
        line_ok(self@)
    }

    /// An empty command line with no history.
    pub fn new() -> (r: CommandLine)
        ensures
            r.wf(),
            r@ == (LineModel {
                buffer: seq![],
                cursor: 0,
                history: seq![],
                index: None,
                scratch: seq![],
            }),
    {
        let r = CommandLine {
            buffer: Vec::new(),
            cursor: 0,
            history: Vec::new(),
            history_index: None,
            scratch: Vec::new(),
        };
        assert(strings_view(r.history@) =~= Seq::<Seq<char>>::empty());
        r
    }

    /// Clears the line for a new command; the history stays.
    pub fn enter(&mut self)
        requires
            old(self).wf(),
        ensures
            final(self).wf(),
            final(self)@ == entered(old(self)@),
    {
        self.buffer.clear();
        self.cursor = 0;
        self.history_index = None;
        self.scratch.clear();
    }

    /// Shows the previous history entry (`<Up>`).
    pub fn history_previous(&mut self)
        requires
            old(self).wf(),
        ensures
            final(self).wf(),
            final(self)@ == history_back(old(self)@),
    {
        let n = self.history.len();
        if n == 0 {
            return;
        }
        match self.history_index {
            None => {
                std::mem::swap(&mut self.scratch, &mut self.buffer);
                self.history_index = Some(n - 1);
                self.buffer = chars_of(self.history[n - 1].as_str());
                self.cursor = self.buffer.len();
            },
            Some(i) => {
                if i > 0 {
                    self.history_index = Some(i - 1);
                    self.buffer = chars_of(self.history[i - 1].as_str());
                    self.cursor = self.buffer.len();
                }
            },
        }
    }

    /// Shows the next history entry, or the line that was being typed
    /// after the newest (`<Down>`).
    pub fn history_next(&mut self)
        requires
            old(self).wf(),
        ensures
            final(self).wf(),
            final(self)@ == history_forward(old(self)@),
    {
        if let Some(i) = self.history_index {
            assert(self@.index == Some(i as nat));
            assert(self@.history.len() == self.history@.len());
            assert(line_ok(self@));
            assert(i < self.history.len());
            if i + 1 < self.history.len() {
                self.history_index = Some(i + 1);
                self.buffer = chars_of(self.history[i + 1].as_str());
                self.cursor = self.buffer.len();
            } else {
                self.history_index = None;
                std::mem::swap(&mut self.buffer, &mut self.scratch);
                self.scratch.clear();
                self.cursor = self.buffer.len();
            }
        }
    }

    /// Deletes the character before the cursor (`<BS>`).
    pub fn delete_backward(&mut self)
        requires
            old(self).wf(),
        ensures
            final(self).wf(),
            final(self)@ == deleted_backward(old(self)@),
    {
        if self.cursor > 0 && self.buffer.len() > 0 {
            self.buffer.remove(self.cursor - 1);
            self.cursor = self.cursor - 1;
        }
        self.history_index = None;
    }

    /// Deletes the character under the cursor (`<Del>`).
    pub fn delete_forward(&mut self)
        requires
            old(self).wf(),
        ensures
            final(self).wf(),
            final(self)@ == deleted_forward(old(self)@),
    {
        if self.cursor < self.buffer.len() {
            self.buffer.remove(self.cursor);
        }
        self.history_index = None;
    }

    pub fn move_left(&mut self)
        requires
            old(self).wf(),
        ensures
            final(self).wf(),
            final(self)@ == moved_left(old(self)@),
    {
        if self.cursor > 0 {
            self.cursor = self.cursor - 1;
        }
    }

    pub fn move_right(&mut self)
        requires
            old(self).wf(),
        ensures
            final(self).wf(),
            final(self)@ == moved_right(old(self)@),
    {
        if self.cursor < self.buffer.len() {
            self.cursor = self.cursor + 1;
        }
    }

    pub fn move_home(&mut self)
        requires
            old(self).wf(),
        ensures
            final(self).wf(),
            final(self)@ == moved_home(old(self)@),
    {
        self.cursor = 0;
    }

    pub fn move_end(&mut self)
        requires
            old(self).wf(),
        ensures
            final(self).wf(),
            final(self)@ == moved_end(old(self)@),
    {
        self.cursor = self.buffer.len();
    }

    /// A typed character: inserted at the cursor unless Control or Alt is
    /// held.
    pub fn type_char(&mut self, c: char, control: bool, alt: bool)
        requires
            old(self).wf(),
        ensures
            final(self).wf(),
            final(self)@ == (if !control && !alt {
                typed(old(self)@, c)
            } else {
                old(self)@
            }),
    {
        if !control && !alt {
            self.buffer.insert(self.cursor, c);
            assert(self.cursor < self.buffer.len());
            self.cursor = self.cursor + 1;
            self.history_index = None;
        }
    }

    /// Submits the line (`<CR>`): records it in the history, then expands
    /// and splits the chosen command and says what it asks for.
    pub fn execute(&mut self) -> (r: CommandOutcome)
        requires
            old(self).wf(),
        ensures
            final(self).wf(),
            final(self)@ == submitted(old(self)@),
            executes(old(self)@, r),
    {
        let ghost m = self@;
        let mut line: Vec<char> = Vec::new();
        std::mem::swap(&mut line, &mut self.buffer);
        self.cursor = 0;
        let is_repeat = line.len() == 2 && line[0] == '!' && line[1] == '!';
        assert(is_repeat == (line@ == repeat_line())) by {
            if line@.len() == 2 && line@[0] == '!' && line@[1] == '!' {
                assert(line@ =~= repeat_line());
            }
        }
        let n = self.history.len();
        let (cmd, force): (String, bool) = if is_repeat {
            if n == 0 {
                proof {
                    reveal_strlit("no previous command");
                }
                assert(self@ == submitted(m));
                return CommandOutcome::Failed(string_of(chars_of("no previous command")));
            }
            (self.history[n - 1].clone(), true)
        } else {
            let nonempty = line.len() > 0;
            let text = string_of(line);
            if nonempty && (n == 0 || !str_eq(self.history[n - 1].as_str(), text.as_str())) {
                self.history.push(text.clone());
                assert(strings_view(self.history@) =~= m.history.push(m.buffer));
            }
            (text, false)
        };
        assert(self@ == submitted(m));
        match expand(cmd.as_str()) {
            Err(e) => CommandOutcome::ExpandFailed(e),
            Ok(x) => {
                let parsed = parse_words(x.as_str(), true);
                let r = command_outcome(parsed, x.as_str(), force);
                assert(shellish_words(x@, true) == match parsed {
                    Ok(w) => Ok::<Seq<Seq<char>>, Seq<char>>(strings_view(w@)),
                    Err(e) => Err::<Seq<Seq<char>>, Seq<char>>(e@),
                });
                r
            },
        }
    }
}

/// Typing a character and deleting it with backspace gives back the line
/// and the cursor.
pub proof fn lemma_type_then_delete(m: LineModel, c: char)
    requires
        line_ok(m),
    ensures
        deleted_backward(typed(m, c)) == (LineModel { index: None, ..m }),
{
    assert(m.buffer.insert(m.cursor as int, c).remove(m.cursor as int) =~= m.buffer);
}

/// Stepping back into the history and forward again gives back the line
/// that was being typed, with the cursor at its end.
pub proof fn lemma_history_round_trip(m: LineModel)
    requires
        line_ok(m),
        m.index is None,
    ensures
        history_forward(history_back(m)).buffer == m.buffer,
        history_forward(history_back(m)).index is None,
        history_forward(history_back(m)).history == m.history,
{
}

/// Every editing step keeps the command line well formed.
pub proof fn lemma_steps_keep_line_ok(m: LineModel, c: char)
    requires
        line_ok(m),
    ensures
        line_ok(entered(m)),
        line_ok(history_back(m)),
        line_ok(history_forward(m)),
        line_ok(deleted_backward(m)),
        line_ok(deleted_forward(m)),
        line_ok(moved_left(m)),
        line_ok(moved_right(m)),
        line_ok(moved_home(m)),
        line_ok(moved_end(m)),
        line_ok(typed(m, c)),
        line_ok(submitted(m)),
{
}

} // verus!
