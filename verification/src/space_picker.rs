//! Space picker model: one row per named space, keyboard navigation and the
//! inline name prompt. Pure state: switching, renaming and deleting spaces
//! belong to the platform layer.
use crate::text::{
    char_is_control, char_is_whitespace, chars_of, is_control, is_whitespace, lowercase,
    push_char, same_str, string_of, to_lowercase,
};
use vstd::prelude::*;

verus! {

/// Longest name, in characters, that the prompt accepts.
pub const MAX_NAME_CHARS: usize = 24;

/// A request on the named spaces that the platform layer carries out.
#[derive(Clone, Debug, PartialEq)]
pub enum SpaceCommand {
    Switch(String),
    Create(String),
    Rename(String, String),
    Delete(String),
}

pub enum SpaceCommandView {
    Switch(Seq<char>),
    Create(Seq<char>),
    Rename(Seq<char>, Seq<char>),
    Delete(Seq<char>),
}

impl View for SpaceCommand {
    type V = SpaceCommandView;

    open spec fn view(&self) -> SpaceCommandView {
        match self {
            SpaceCommand::Switch(n) => SpaceCommandView::Switch(n@),
            SpaceCommand::Create(n) => SpaceCommandView::Create(n@),
            SpaceCommand::Rename(a, b) => SpaceCommandView::Rename(a@, b@),
            SpaceCommand::Delete(n) => SpaceCommandView::Delete(n@),
        }
    }
}

#[derive(Clone, Debug, PartialEq)]
pub struct Row {
    pub name: String,
    pub current: bool,
    /// Application names of its windows, without duplicates.
    pub apps: Vec<String>,
}

#[derive(Clone, Debug, PartialEq)]
pub enum Mode {
    Browse,
    Create(String),
    Rename(String),
    /// Waiting for the second `D` that confirms the deletion.
    Delete,
}

pub enum ModeView {
    Browse,
    Create(Seq<char>),
    Rename(Seq<char>),
    Delete,
}

impl View for Mode {
    type V = ModeView;

    open spec fn view(&self) -> ModeView {
        match self {
            Mode::Browse => ModeView::Browse,
            Mode::Create(b) => ModeView::Create(b@),
            Mode::Rename(b) => ModeView::Rename(b@),
            Mode::Delete => ModeView::Delete,
        }
    }
}

impl Default for Mode {
    fn default() -> (m: Self)
        ensures
            m@ == ModeView::Browse,
    {
        Mode::Browse
    }
}

#[derive(Clone, Debug, PartialEq)]
pub enum Action {
    Escape,
    Confirm,
    Next,
    Previous,
    Backspace,
    Text(String),
}

pub enum ActionView {
    Escape,
    Confirm,
    Next,
    Previous,
    Backspace,
    Text(Seq<char>),
}

impl View for Action {
    type V = ActionView;

    open spec fn view(&self) -> ActionView {
        match self {
            Action::Escape => ActionView::Escape,
            Action::Confirm => ActionView::Confirm,
            Action::Next => ActionView::Next,
            Action::Previous => ActionView::Previous,
            Action::Backspace => ActionView::Backspace,
            Action::Text(t) => ActionView::Text(t@),
        }
    }
}

#[derive(Clone, Debug, PartialEq)]
pub enum Outcome {
    Nothing,
    Close,
    /// A prompt stays open until the command succeeds and new rows arrive.
    Run(SpaceCommand),
}

pub enum OutcomeView {
    Nothing,
    Close,
    Run(SpaceCommandView),
}

impl View for Outcome {
    type V = OutcomeView;

    open spec fn view(&self) -> OutcomeView {
        match self {
            Outcome::Nothing => OutcomeView::Nothing,
            Outcome::Close => OutcomeView::Close,
            Outcome::Run(c) => OutcomeView::Run(c@),
        }
    }
}

pub struct Model {
    pub rows: Vec<Row>,
    pub selected: usize,
    pub mode: Mode,
    pub error: Option<String>,
}

/// Index kept within `count` rows; the last row when past the end.
pub open spec fn clamp_selection(selected: int, count: int) -> int {
    let last = if count > 0 { count - 1 } else { 0 };
    if selected <= last { selected } else { last }
}

/// Name of the selected row, empty when there is none.
pub open spec fn selected_name(rows: Seq<Row>, selected: int) -> Seq<char> {
    if 0 <= selected < rows.len() { rows[selected].name@ } else { Seq::empty() }
}

/// The prompt keeps at most 24 characters and no whitespace or control characters.
pub open spec fn accepts(buffer: Seq<char>, c: char) -> bool {
    buffer.len() < MAX_NAME_CHARS && !is_whitespace(c) && !is_control(c)
}

/// The prompt buffer after typing `text`, one character at a time.
pub open spec fn typed(buffer: Seq<char>, text: Seq<char>) -> Seq<char>
    decreases text.len(),
{
    if text.len() == 0 {
        buffer
    } else {
        let before = typed(buffer, text.drop_last());
        if accepts(before, text.last()) { before.push(text.last()) } else { before }
    }
}

/// Whether key text `t` is the letter `c` regardless of case.
pub open spec fn is_letter(t: Seq<char>, c: char) -> bool {
    lowercase(t) == seq![c]
}

/// The whole transition of `Model::action`: new selection, new mode, outcome.
pub open spec fn spec_action(rows: Seq<Row>, selected: int, mode: ModeView, action: ActionView) -> (int, ModeView, OutcomeView) {
    let count = if rows.len() > 0 { rows.len() as int } else { 1 };
    let name = selected_name(rows, selected);
    match mode {
        ModeView::Browse => match action {
            ActionView::Escape => (selected, mode, OutcomeView::Close),
            ActionView::Confirm => if 0 <= selected < rows.len() && !rows[selected].current {
                (selected, mode, OutcomeView::Run(SpaceCommandView::Switch(rows[selected].name@)))
            } else {
                (selected, mode, OutcomeView::Close)
            },
            ActionView::Next => ((selected + 1) % count, mode, OutcomeView::Nothing),
            ActionView::Previous => ((selected + count - 1) % count, mode, OutcomeView::Nothing),
            ActionView::Text(t) => if is_letter(t, 'n') {
                (selected, ModeView::Create(Seq::empty()), OutcomeView::Nothing)
            } else if is_letter(t, 'e') {
                (selected, ModeView::Rename(name), OutcomeView::Nothing)
            } else if is_letter(t, 'd') {
                (selected, ModeView::Delete, OutcomeView::Nothing)
            } else {
                (selected, mode, OutcomeView::Nothing)
            },
            ActionView::Backspace => (selected, mode, OutcomeView::Nothing),
        },
        ModeView::Delete => match action {
            ActionView::Text(t) => if is_letter(t, 'd') {
                (selected, ModeView::Browse, OutcomeView::Run(SpaceCommandView::Delete(name)))
            } else {
                (selected, ModeView::Browse, OutcomeView::Nothing)
            },
            _ => (selected, ModeView::Browse, OutcomeView::Nothing),
        },
        ModeView::Create(buffer) => match action {
            ActionView::Escape => (selected, ModeView::Browse, OutcomeView::Nothing),
            ActionView::Backspace => (selected, ModeView::Create(if buffer.len() > 0 { buffer.drop_last() } else { buffer }), OutcomeView::Nothing),
            ActionView::Text(t) => (selected, ModeView::Create(typed(buffer, t)), OutcomeView::Nothing),
            ActionView::Confirm => (selected, mode, OutcomeView::Run(SpaceCommandView::Create(buffer))),
            _ => (selected, mode, OutcomeView::Nothing),
        },
        ModeView::Rename(buffer) => match action {
            ActionView::Escape => (selected, ModeView::Browse, OutcomeView::Nothing),
            ActionView::Backspace => (selected, ModeView::Rename(if buffer.len() > 0 { buffer.drop_last() } else { buffer }), OutcomeView::Nothing),
            ActionView::Text(t) => (selected, ModeView::Rename(typed(buffer, t)), OutcomeView::Nothing),
            ActionView::Confirm => (selected, mode, OutcomeView::Run(SpaceCommandView::Rename(name, buffer))),
            _ => (selected, mode, OutcomeView::Nothing),
        },
    }
}

/// Arithmetic of navigation stays within `usize` (only browsing navigates).
pub open spec fn navigation_fits(rows: Seq<Row>, selected: int, action: ActionView) -> bool {
    let count = if rows.len() > 0 { rows.len() as int } else { 1 };
    &&& action is Next ==> selected + 1 <= usize::MAX
    &&& action is Previous ==> selected + count - 1 <= usize::MAX
}

/// `text` typed into `buffer` by the prompt rules.
fn type_into(buffer: &String, text: &String) -> (r: String)
    ensures
        r@ == typed(buffer@, text@),
{
    let chars = chars_of(text.as_str());
    let mut out = buffer.clone();
    let mut count: usize = chars_of(out.as_str()).len();
    let mut i: usize = 0;
    while i < chars.len()
        invariant
            chars@ == text@,
            i <= chars@.len(),
            out@ == typed(buffer@, chars@.take(i as int)),
            count == out@.len(),
        decreases chars@.len() - i,
    {
        let c = chars[i];
        assert(chars@.take(i + 1).drop_last() =~= chars@.take(i as int));
        assert(chars@.take(i + 1).last() == c);
        if count < MAX_NAME_CHARS && !char_is_whitespace(c) && !char_is_control(c) {
            push_char(&mut out, c);
            count += 1;
        }
        i += 1;
    }
    assert(chars@.take(i as int) =~= text@);
    out
}

/// `buffer` without its last character.
fn without_last(buffer: &String) -> (r: String)
    ensures
        r@ == (if buffer@.len() > 0 { buffer@.drop_last() } else { buffer@ }),
{
    let chars = chars_of(buffer.as_str());
    if chars.len() == 0 {
        buffer.clone()
    } else {
        let s = string_of(chars.as_slice(), chars.len() - 1);
        assert(chars@.take(chars@.len() - 1) =~= buffer@.drop_last());
        s
    }
}

/// Whether key text is the letter `c` (given in lowercase), regardless of case.
fn letter(text: &String, c: char) -> (r: bool)
    ensures
        r == is_letter(text@, c),
{
    let lower = to_lowercase(text.as_str());
    let chars = chars_of(lower.as_str());
    let r = chars.len() == 1 && chars[0] == c;
    assert(r ==> chars@ =~= seq![c]);
    r
}

impl Default for Model {
    /// No rows, the first selected, browsing, no error.
    fn default() -> (m: Self)
        ensures
            m.rows@.len() == 0,
            m.selected == 0,
            m.mode@ == ModeView::Browse,
            m.error is None,
    {
        Model { rows: Vec::new(), selected: 0, mode: Mode::Browse, error: None }
    }
}

impl Model {
    pub open spec fn name_spec(&self) -> Seq<char> {
        selected_name(self.rows@, self.selected as int)
    }

    /// The selection starts on `selected`, kept within the rows.
    pub fn new(rows: Vec<Row>, selected: usize) -> (m: Self)
        ensures
            m.rows == rows,
            m.selected == clamp_selection(selected as int, rows@.len() as int),
            m.mode@ == ModeView::Browse,
            m.error is None,
    {
        let last = if rows.len() > 0 { rows.len() - 1 } else { 0 };
        let selected = if selected <= last { selected } else { last };
        Model { rows, selected, mode: Mode::Browse, error: None }
    }

    /// After a rename or a deletion: back to browsing, selection kept in range.
    pub fn set_rows(&mut self, rows: Vec<Row>)
        ensures
            final(self).rows == rows,
            final(self).selected == clamp_selection(old(self).selected as int, rows@.len() as int),
            final(self).mode@ == ModeView::Browse,
            final(self).error == old(self).error,
    {
        let last = if rows.len() > 0 { rows.len() - 1 } else { 0 };
        if self.selected > last {
            self.selected = last;
        }
        self.rows = rows;
        self.mode = Mode::Browse;
    }

    /// Moves the selection to an existing row; other indices are ignored.
    pub fn select(&mut self, index: usize)
        ensures
            final(self).selected == (if index < old(self).rows@.len() { index } else { old(self).selected }),
            final(self).rows == old(self).rows,
            final(self).mode == old(self).mode,
            final(self).error == old(self).error,
    {
        if index < self.rows.len() {
            self.selected = index;
        }
    }

    /// Name of the selected row, empty when there is none.
    pub fn name(&self) -> (n: String)
        ensures
            n@ == self.name_spec(),
    {
        if self.selected < self.rows.len() {
            self.rows[self.selected].name.clone()
        } else {
            String::new()
        }
    }

    /// One key of the picker. Clears the previous error; the rows never change.
    pub fn action(&mut self, action: Action) -> (o: Outcome)
        requires
            old(self).mode@ is Browse ==> navigation_fits(old(self).rows@, old(self).selected as int, action@),
        ensures
            ({
                let (selected, mode, outcome) = spec_action(old(self).rows@, old(self).selected as int, old(self).mode@, action@);
                &&& final(self).selected == selected
                &&& final(self).mode@ == mode
                &&& o@ == outcome
            }),
            final(self).rows == old(self).rows,
            final(self).error is None,
    {
        self.error = None;
        let count = if self.rows.len() > 0 { self.rows.len() } else { 1 };
        let (mode, outcome) = match &self.mode {
            Mode::Browse => match action {
                Action::Escape => (Mode::Browse, Outcome::Close),
                Action::Confirm => {
                    if self.selected < self.rows.len() && !self.rows[self.selected].current {
                        (Mode::Browse, Outcome::Run(SpaceCommand::Switch(self.rows[self.selected].name.clone())))
                    } else {
                        (Mode::Browse, Outcome::Close)
                    }
                },
                Action::Next => {
                    self.selected = (self.selected + 1) % count;
                    (Mode::Browse, Outcome::Nothing)
                },
                Action::Previous => {
                    self.selected = (self.selected + (count - 1)) % count;
                    (Mode::Browse, Outcome::Nothing)
                },
                Action::Text(text) => {
                    if letter(&text, 'n') {
                        (Mode::Create(String::new()), Outcome::Nothing)
                    } else if letter(&text, 'e') {
                        (Mode::Rename(self.name()), Outcome::Nothing)
                    } else if letter(&text, 'd') {
                        (Mode::Delete, Outcome::Nothing)
                    } else {
                        (Mode::Browse, Outcome::Nothing)
                    }
                },
                Action::Backspace => (Mode::Browse, Outcome::Nothing),
            },
            Mode::Delete => match action {
                Action::Text(text) => {
                    if letter(&text, 'd') {
                        (Mode::Browse, Outcome::Run(SpaceCommand::Delete(self.name())))
                    } else {
                        (Mode::Browse, Outcome::Nothing)
                    }
                },
                _ => (Mode::Browse, Outcome::Nothing),
            },
            Mode::Create(buffer) => match action {
                Action::Escape => (Mode::Browse, Outcome::Nothing),
                Action::Backspace => (Mode::Create(without_last(buffer)), Outcome::Nothing),
                Action::Text(text) => (Mode::Create(type_into(buffer, &text)), Outcome::Nothing),
                Action::Confirm => (Mode::Create(buffer.clone()), Outcome::Run(SpaceCommand::Create(buffer.clone()))),
                _ => (Mode::Create(buffer.clone()), Outcome::Nothing),
            },
            Mode::Rename(buffer) => match action {
                Action::Escape => (Mode::Browse, Outcome::Nothing),
                Action::Backspace => (Mode::Rename(without_last(buffer)), Outcome::Nothing),
                Action::Text(text) => (Mode::Rename(type_into(buffer, &text)), Outcome::Nothing),
                Action::Confirm => (Mode::Rename(buffer.clone()), Outcome::Run(SpaceCommand::Rename(self.name(), buffer.clone()))),
                _ => (Mode::Rename(buffer.clone()), Outcome::Nothing),
            },
        };
        self.mode = mode;
        outcome
    }
}

/// A prompt buffer as the picker keeps it: at most 24 characters, none of
/// them whitespace or control.
pub open spec fn prompt_ok(buffer: Seq<char>) -> bool {
    &&& buffer.len() <= MAX_NAME_CHARS
    &&& forall|i: int| 0 <= i < buffer.len() ==> !is_whitespace(#[trigger] buffer[i]) && !is_control(buffer[i])
}

/// The prompt of a mode, if it has one, is kept as the picker keeps it.
pub open spec fn mode_ok(mode: ModeView) -> bool {
    match mode {
        ModeView::Create(b) => prompt_ok(b),
        ModeView::Rename(b) => prompt_ok(b),
        _ => true,
    }
}

/// The selection is a row, or 0 when there are none.
pub open spec fn selection_ok(rows: Seq<Row>, selected: int) -> bool {
    0 <= selected < (if rows.len() > 0 { rows.len() as int } else { 1 })
}

proof fn lemma_typed_ok(buffer: Seq<char>, text: Seq<char>)
    requires
        prompt_ok(buffer),
    ensures
        prompt_ok(typed(buffer, text)),
    decreases text.len(),
{
    if text.len() > 0 {
        lemma_typed_ok(buffer, text.drop_last());
        let before = typed(buffer, text.drop_last());
        if accepts(before, text.last()) {
            let after = before.push(text.last());
            assert forall|i: int| 0 <= i < after.len() implies !is_whitespace(#[trigger] after[i]) && !is_control(after[i]) by {
                if i < before.len() {
                    assert(after[i] == before[i]);
                }
            }
        }
    }
}

/// Every key keeps the selection on a row and the prompt within its rules,
/// so a name sent to create or rename a space never holds whitespace or
/// control characters and never exceeds 24 characters.
pub proof fn action_keeps_picker_valid(rows: Seq<Row>, selected: int, mode: ModeView, action: ActionView)
    requires
        selection_ok(rows, selected),
        mode_ok(mode),
        forall|i: int| 0 <= i < rows.len() ==> prompt_ok(#[trigger] rows[i].name@),
    ensures
        ({
            let (s, m, o) = spec_action(rows, selected, mode, action);
            &&& selection_ok(rows, s)
            &&& mode_ok(m)
            &&& (o matches OutcomeView::Run(SpaceCommandView::Create(name)) ==> prompt_ok(name))
            &&& (o matches OutcomeView::Run(SpaceCommandView::Rename(_, name)) ==> prompt_ok(name))
        }),
{
    let count = if rows.len() > 0 { rows.len() as int } else { 1 };
    assert(0 <= (selected + 1) % count < count);
    assert(0 <= (selected + count - 1) % count < count);
    if 0 <= selected < rows.len() {
        assert(prompt_ok(rows[selected].name@));
    }
    assert(prompt_ok(Seq::<char>::empty()));
    match mode {
        ModeView::Create(b) => {
            assert(prompt_ok(if b.len() > 0 { b.drop_last() } else { b }));
            if let ActionView::Text(t) = action {
                lemma_typed_ok(b, t);
            }
        },
        ModeView::Rename(b) => {
            assert(prompt_ok(if b.len() > 0 { b.drop_last() } else { b }));
            if let ActionView::Text(t) = action {
                lemma_typed_ok(b, t);
            }
        },
        _ => {},
    }
}

/// Moving down then up while browsing comes back to the same row.
pub proof fn next_then_previous_returns(rows: Seq<Row>, selected: int)
    requires
        selection_ok(rows, selected),
    ensures
        ({
            let (s1, m1, o1) = spec_action(rows, selected, ModeView::Browse, ActionView::Next);
            let (s2, m2, o2) = spec_action(rows, s1, m1, ActionView::Previous);
            s2 == selected && m2 == ModeView::Browse
        }),
{
    let count = if rows.len() > 0 { rows.len() as int } else { 1 };
    let s1 = (selected + 1) % count;
    assert(((selected + 1) % count + count - 1) % count == selected) by (nonlinear_arith)
        requires
            0 <= selected < count,
    ;
}

/// The characters of `text` that a prompt can hold: neither whitespace nor
/// control characters, in order.
pub open spec fn printable(text: Seq<char>) -> Seq<char>
    decreases text.len(),
{
    if text.len() == 0 {
        text
    } else {
        let p = printable(text.drop_last());
        if !is_whitespace(text.last()) && !is_control(text.last()) { p.push(text.last()) } else { p }
    }
}

/// How many more characters a prompt holding `buffer` takes.
pub open spec fn room(buffer: Seq<char>) -> int {
    if buffer.len() < MAX_NAME_CHARS { MAX_NAME_CHARS - buffer.len() } else { 0 }
}

/// Typing `text` into a prompt appends its printable characters, as many as
/// fit in 24: the prompt never grows past that.
pub proof fn typing_appends_what_fits(buffer: Seq<char>, text: Seq<char>)
    ensures
        typed(buffer, text) == buffer + printable(text).take(
            if printable(text).len() < room(buffer) { printable(text).len() as int } else { room(buffer) },
        ),
    decreases text.len(),
{
    let e = printable(text);
    let k = if e.len() < room(buffer) { e.len() as int } else { room(buffer) };
    if text.len() == 0 {
        assert(e.take(0) =~= Seq::<char>::empty());
        assert(buffer + e.take(0) =~= buffer);
    } else {
        let rest = text.drop_last();
        let c = text.last();
        typing_appends_what_fits(buffer, rest);
        let e0 = printable(rest);
        let k0 = if e0.len() < room(buffer) { e0.len() as int } else { room(buffer) };
        let before = typed(buffer, rest);
        assert(before == buffer + e0.take(k0));
        assert(before.len() == buffer.len() + k0);
        if !is_whitespace(c) && !is_control(c) {
            assert(e == e0.push(c));
            if accepts(before, c) {
                assert(k0 == e0.len());
                assert(k == e0.len() + 1);
                assert(e.take(k) =~= e0.take(k0).push(c));
                assert(before.push(c) =~= buffer + e.take(k));
            } else {
                assert(k0 == room(buffer));
                assert(k == k0);
                assert(e.take(k) =~= e0.take(k0));
            }
        } else {
            assert(e == e0);
        }
    }
}

/// How an editing key changes a prompt's text from `b` to `b2`: Backspace
/// drops the last character, typing only appends, anything else keeps it.
pub open spec fn edits(b: Seq<char>, action: ActionView, b2: Seq<char>) -> bool {
    match action {
        ActionView::Backspace => b2 == b.take(if b.len() > 0 { b.len() - 1 } else { 0 }),
        ActionView::Text(_) => b.len() <= b2.len() && b2.take(b.len() as int) == b,
        _ => b2 == b,
    }
}

/// A prompt keeps its kind until Escape: creating stays creating and
/// renaming stays renaming, whatever is typed, erased or confirmed, and the
/// selection does not move. Escape goes back to browsing; Confirm asks to
/// create the typed name, or to rename the selected space to it.
pub proof fn prompts_keep_their_kind(rows: Seq<Row>, selected: int, mode: ModeView, action: ActionView)
    ensures
        ({
            let (s2, m2, o) = spec_action(rows, selected, mode, action);
            &&& (mode is Create || mode is Rename) ==> s2 == selected
            &&& (mode is Create || mode is Rename) && action is Escape ==> m2 == ModeView::Browse && o == OutcomeView::Nothing
            &&& match mode {
                ModeView::Create(b) => {
                    &&& !(action is Escape) ==> (m2 matches ModeView::Create(b2) && edits(b, action, b2))
                    &&& action is Confirm ==> o == OutcomeView::Run(SpaceCommandView::Create(b))
                },
                ModeView::Rename(b) => {
                    &&& !(action is Escape) ==> (m2 matches ModeView::Rename(b2) && edits(b, action, b2))
                    &&& action is Confirm ==> o == OutcomeView::Run(SpaceCommandView::Rename(selected_name(rows, selected), b))
                },
                _ => true,
            }
            &&& (mode is Create || mode is Rename) && !(action is Confirm) ==> o == OutcomeView::Nothing
        }),
{
    match mode {
        ModeView::Create(b) => {
            if let ActionView::Text(t) = action {
                typing_appends_what_fits(b, t);
                assert(typed(b, t).take(b.len() as int) =~= b);
            }
            if action is Backspace && b.len() == 0 {
                assert(b.take(0) =~= b);
            }
        },
        ModeView::Rename(b) => {
            if let ActionView::Text(t) = action {
                typing_appends_what_fits(b, t);
                assert(typed(b, t).take(b.len() as int) =~= b);
            }
            if action is Backspace && b.len() == 0 {
                assert(b.take(0) =~= b);
            }
        },
        _ => {},
    }
}

} // verus!

