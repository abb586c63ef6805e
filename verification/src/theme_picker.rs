//! Theme picker model: browsing a catalog of theme identifiers with a
//! substring filter. Pure state: browsing never writes preferences or applies
//! a theme; only `Outcome::Apply` asks for that.
use crate::text::{
    ascii_alnum, ascii_upper, char_is_control, char_is_whitespace, chars_of, is_ascii_alnum,
    is_control, is_whitespace, lowercase, push_char, string_of, to_ascii_upper, to_lowercase,
};
use vstd::prelude::*;

verus! {

/// Label of an identifier after its first `n` characters: the text so far,
/// whether a word starts next, and whether the last character was a separator.
pub open spec fn label_state(id: Seq<char>) -> (Seq<char>, bool, bool)
    decreases id.len(),
{
    if id.len() == 0 {
        (Seq::empty(), true, false)
    } else {
        let (text, boundary, separator) = label_state(id.drop_last());
        let ch = id.last();
        if ch == '-' || ch == '_' {
            (if !separator { text.push(' ') } else { text }, true, true)
        } else {
            let shown = if boundary && is_ascii_alnum(ch) { ascii_upper(ch) } else { ch };
            (text.push(shown), !is_ascii_alnum(ch), false)
        }
    }
}

/// Display label of a theme identifier: runs of `-`/`_` become one space and
/// ASCII word starts are upper-cased.
pub open spec fn spec_label(id: Seq<char>) -> Seq<char> {
    label_state(id).0
}

/// Label of a theme identifier (not the theme's own display name):
/// `tokyo--night_test` reads `Tokyo Night Test`.
pub fn label(id: &str) -> (r: String)
    ensures
        r@ == spec_label(id@),
{
    let chars = chars_of(id);
    let mut result = String::new();
    let mut boundary = true;
    let mut separator = false;
    let mut i: usize = 0;
    while i < chars.len()
        invariant
            chars@ == id@,
            i <= chars@.len(),
            (result@, boundary, separator) == label_state(chars@.take(i as int)),
        decreases chars@.len() - i,
    {
        let ch = chars[i];
        assert(chars@.take(i + 1).drop_last() =~= chars@.take(i as int));
        assert(chars@.take(i + 1).last() == ch);
        if ch == '-' || ch == '_' {
            if !separator {
                push_char(&mut result, ' ');
            }
            separator = true;
            boundary = true;
        } else {
            separator = false;
            let alnum = ascii_alnum(ch);
            if boundary && alnum {
                push_char(&mut result, to_ascii_upper(ch));
            } else {
                push_char(&mut result, ch);
            }
            boundary = !alnum;
        }
        i += 1;
    }
    assert(chars@.take(i as int) =~= id@);
    result
}

/// `needle` occurs in `hay` as a contiguous run (`str::contains`).
pub open spec fn contains(hay: Seq<char>, needle: Seq<char>) -> bool {
    exists|i: int| 0 <= i && i + needle.len() <= hay.len() && #[trigger] hay.subrange(i, i + needle.len()) == needle
}

/// Whether `needle` occurs in `hay`.
pub fn find(hay: &[char], needle: &[char]) -> (r: bool)
    ensures
        r == contains(hay@, needle@),
{
    if needle.len() > hay.len() {
        return false;
    }
    let last = hay.len() - needle.len();
    let mut i: usize = 0;
    loop
        invariant
            last == hay@.len() - needle@.len(),
            needle@.len() <= hay@.len(),
            hay@.len() <= usize::MAX,
            i <= last,
            forall|k: int| 0 <= k < i ==> #[trigger] hay@.subrange(k, k + needle@.len()) != needle@,
        decreases last - i,
    {
        let mut j: usize = 0;
        let mut same = true;
        while j < needle.len()
            invariant
                i <= last,
                last == hay@.len() - needle@.len(),
                needle@.len() <= hay@.len(),
                hay@.len() <= usize::MAX,
                j <= needle@.len(),
                same == (forall|m: int| 0 <= m < j ==> hay@[i + m] == needle@[m]),
            decreases needle@.len() - j,
        {
            assert(i + j < hay@.len());
            if hay[i + j] != needle[j] {
                same = false;
            }
            j += 1;
        }
        if same {
            assert(hay@.subrange(i as int, i + needle@.len()) =~= needle@);
            return true;
        }
        assert(!(hay@.subrange(i as int, i + needle@.len()) =~= needle@));
        if i == last {
            assert forall|k: int| 0 <= k && k + needle@.len() <= hay@.len() implies #[trigger] hay@.subrange(k, k + needle@.len()) != needle@ by {
                assert(k <= i);
            }
            return false;
        }
        i += 1;
    }
}

#[derive(Clone, Debug)]
pub struct Model {
    pub ids: Vec<String>,
    pub filter: String,
    pub selected: usize,
}

#[derive(Clone, Debug, PartialEq)]
pub enum Action {
    Previous,
    Next,
    Text(String),
    Backspace,
    DeleteWord,
    Clear,
    Escape,
    Confirm,
    Click(usize),
}

pub enum ActionView {
    Previous,
    Next,
    Text(Seq<char>),
    Backspace,
    DeleteWord,
    Clear,
    Escape,
    Confirm,
    Click(usize),
}

impl View for Action {
    type V = ActionView;

    open spec fn view(&self) -> ActionView {
        match self {
            Action::Previous => ActionView::Previous,
            Action::Next => ActionView::Next,
            Action::Text(t) => ActionView::Text(t@),
            Action::Backspace => ActionView::Backspace,
            Action::DeleteWord => ActionView::DeleteWord,
            Action::Clear => ActionView::Clear,
            Action::Escape => ActionView::Escape,
            Action::Confirm => ActionView::Confirm,
            Action::Click(i) => ActionView::Click(*i),
        }
    }
}

#[derive(Debug, PartialEq)]
pub enum Outcome {
    Nothing,
    Cancel,
    Apply(String),
}

pub enum OutcomeView {
    Nothing,
    Cancel,
    Apply(Seq<char>),
}

impl View for Outcome {
    type V = OutcomeView;

    open spec fn view(&self) -> OutcomeView {
        match self {
            Outcome::Nothing => OutcomeView::Nothing,
            Outcome::Cancel => OutcomeView::Cancel,
            Outcome::Apply(s) => OutcomeView::Apply(s@),
        }
    }
}

/// The characters of each identifier.
pub open spec fn names(ids: Seq<String>) -> Seq<Seq<char>> {
    ids.map_values(|s: String| s@)
}

/// Identifier `index` matches the filter, case-insensitively, by itself or by its label.
pub open spec fn spec_matches(ids: Seq<Seq<char>>, filter: Seq<char>, index: int) -> bool {
    &&& 0 <= index < ids.len()
    &&& {
        let needle = lowercase(filter);
        contains(lowercase(ids[index]), needle) || contains(lowercase(spec_label(ids[index])), needle)
    }
}

/// Matching indices below `n`, in increasing order.
pub open spec fn matches_below(ids: Seq<Seq<char>>, filter: Seq<char>, n: int) -> Seq<usize>
    decreases n,
{
    if n <= 0 {
        Seq::empty()
    } else {
        let before = matches_below(ids, filter, n - 1);
        if spec_matches(ids, filter, n - 1) { before.push((n - 1) as usize) } else { before }
    }
}

pub open spec fn spec_matches_indices(ids: Seq<Seq<char>>, filter: Seq<char>) -> Seq<usize> {
    matches_below(ids, filter, ids.len() as int)
}

/// After a filter or catalog change: a selection that no longer matches
/// moves to the first match, if any.
pub open spec fn spec_refilter(ids: Seq<Seq<char>>, filter: Seq<char>, selected: int) -> int {
    let m = spec_matches_indices(ids, filter);
    if !spec_matches(ids, filter, selected) && m.len() > 0 { m[0] as int } else { selected }
}

/// Position of `selected` among the matches, the first one when absent.
pub open spec fn position_in(m: Seq<usize>, selected: int) -> int {
    if exists|p: int| 0 <= p < m.len() && m[p] == selected {
        choose|p: int| 0 <= p < m.len() && m[p] == selected
    } else {
        0
    }
}

/// Selection after `Next` (`forward`) or `Previous`: the neighbouring match, wrapping.
pub open spec fn spec_step(ids: Seq<Seq<char>>, filter: Seq<char>, selected: int, forward: bool) -> int {
    let m = spec_matches_indices(ids, filter);
    if m.len() == 0 {
        selected
    } else {
        let p = position_in(m, selected);
        let q = if forward { (p + 1) % (m.len() as int) } else { (p + m.len() - 1) % (m.len() as int) };
        m[q] as int
    }
}

/// Typed text with control characters left out.
pub open spec fn printable(text: Seq<char>) -> Seq<char>
    decreases text.len(),
{
    if text.len() == 0 {
        Seq::empty()
    } else {
        let before = printable(text.drop_last());
        if is_control(text.last()) { before } else { before.push(text.last()) }
    }
}

/// `s` without its trailing characters for which `ws == white` holds.
pub open spec fn strip_end(s: Seq<char>, white: bool) -> Seq<char>
    decreases s.len(),
{
    if s.len() > 0 && is_whitespace(s.last()) == white { strip_end(s.drop_last(), white) } else { s }
}

/// The filter after deleting the last word and the whitespace after it.
pub open spec fn spec_delete_word(filter: Seq<char>) -> Seq<char> {
    strip_end(strip_end(filter, true), false)
}

pub open spec fn drop_one(s: Seq<char>) -> Seq<char> {
    if s.len() > 0 { s.drop_last() } else { s }
}

/// Outcome of `Confirm`: apply the selected identifier when it matches.
pub open spec fn confirm_outcome(ids: Seq<Seq<char>>, filter: Seq<char>, selected: int) -> OutcomeView {
    if spec_matches(ids, filter, selected) { OutcomeView::Apply(ids[selected]) } else { OutcomeView::Cancel }
}

/// The whole transition of `Model::action`: new filter, new selection, outcome.
pub open spec fn spec_action(ids: Seq<Seq<char>>, filter: Seq<char>, selected: int, action: ActionView) -> (Seq<char>, int, OutcomeView) {
    match action {
        ActionView::Previous => (filter, spec_step(ids, filter, selected, false), OutcomeView::Nothing),
        ActionView::Next => (filter, spec_step(ids, filter, selected, true), OutcomeView::Nothing),
        ActionView::Text(t) => {
            let f = filter + printable(t);
            (f, spec_refilter(ids, f, selected), OutcomeView::Nothing)
        },
        ActionView::Backspace => {
            let f = drop_one(filter);
            (f, spec_refilter(ids, f, selected), OutcomeView::Nothing)
        },
        ActionView::DeleteWord => {
            let f = spec_delete_word(filter);
            (f, spec_refilter(ids, f, selected), OutcomeView::Nothing)
        },
        ActionView::Clear => (Seq::empty(), spec_refilter(ids, Seq::empty(), selected), OutcomeView::Nothing),
        ActionView::Escape => if filter.len() == 0 {
            (filter, selected, OutcomeView::Cancel)
        } else {
            (Seq::empty(), spec_refilter(ids, Seq::empty(), selected), OutcomeView::Nothing)
        },
        ActionView::Confirm => (filter, selected, confirm_outcome(ids, filter, selected)),
        ActionView::Click(i) => if spec_matches(ids, filter, i as int) {
            if selected == i { (filter, selected, OutcomeView::Apply(ids[i as int])) } else { (filter, i as int, OutcomeView::Nothing) }
        } else {
            (filter, selected, OutcomeView::Nothing)
        },
    }
}

/// First index of `active` in `ids`, 0 when absent.
pub open spec fn index_of(ids: Seq<Seq<char>>, active: Seq<char>) -> int {
    if exists|i: int| 0 <= i < ids.len() && ids[i] == active {
        choose|i: int| 0 <= i < ids.len() && ids[i] == active && forall|j: int| 0 <= j < i ==> ids[j] != active
    } else {
        0
    }
}

proof fn lemma_matches_below(ids: Seq<Seq<char>>, filter: Seq<char>, n: int)
    requires
        0 <= n <= usize::MAX,
    ensures
        forall|p: int| 0 <= p < matches_below(ids, filter, n).len() ==> {
            let i = #[trigger] matches_below(ids, filter, n)[p];
            0 <= i < n && spec_matches(ids, filter, i as int)
        },
        forall|p: int, q: int| 0 <= p < q < matches_below(ids, filter, n).len() ==>
            matches_below(ids, filter, n)[p] < matches_below(ids, filter, n)[q],
        forall|i: int| 0 <= i < n && spec_matches(ids, filter, i) ==> exists|p: int| 0 <= p < matches_below(ids, filter, n).len() && matches_below(ids, filter, n)[p] == i,
    decreases n,
{
    if n > 0 {
        lemma_matches_below(ids, filter, n - 1);
        let before = matches_below(ids, filter, n - 1);
        if !spec_matches(ids, filter, n - 1) {
            assert(matches_below(ids, filter, n) == before);
        }
        if spec_matches(ids, filter, n - 1) {
            assert(matches_below(ids, filter, n) == before.push((n - 1) as usize));
            assert forall|i: int| 0 <= i < n && spec_matches(ids, filter, i) implies exists|p: int| 0 <= p < matches_below(ids, filter, n).len() && matches_below(ids, filter, n)[p] == i by {
                if i == n - 1 {
                    assert(matches_below(ids, filter, n)[before.len() as int] == i);
                } else {
                    let p = choose|p: int| 0 <= p < before.len() && before[p] == i;
                    assert(matches_below(ids, filter, n)[p] == i);
                }
            }
        }
    }
}

impl Model {
    pub open spec fn selection(&self) -> int {
        self.selected as int
    }

    pub open spec fn id_names(&self) -> Seq<Seq<char>> {
        names(self.ids@)
    }

    /// Opens on the active theme, or the first one when it is not listed.
    pub fn new(ids: Vec<String>, active: &str) -> (m: Self)
        ensures
            m.ids == ids,
            m.filter@ == Seq::<char>::empty(),
            m.selection() == index_of(names(ids@), active@),
    {
        let target = chars_of(active);
        let mut i: usize = 0;
        let mut selected: usize = 0;
        let mut found = false;
        while i < ids.len()
            invariant
                target@ == active@,
                i <= ids@.len(),
                !found ==> selected == 0,
                !found ==> forall|j: int| 0 <= j < i ==> names(ids@)[j] != active@,
                found ==> selected < i && names(ids@)[selected as int] == active@
                    && forall|j: int| 0 <= j < selected ==> names(ids@)[j] != active@,
            decreases ids@.len() - i,
        {
            if !found {
                let here = chars_of(ids[i].as_str());
                if crate::text::same_chars(here.as_slice(), target.as_slice()) {
                    selected = i;
                    found = true;
                }
            }
            i += 1;
        }
        let filter = String::new();
        let m = Model { ids, filter, selected };
        proof {
            let n = names(m.ids@);
            if exists|k: int| 0 <= k < n.len() && n[k] == active@ {
                let k = choose|k: int| 0 <= k < n.len() && n[k] == active@;
                assert(found);
                let c = choose|c: int| 0 <= c < n.len() && n[c] == active@ && forall|j: int| 0 <= j < c ==> n[j] != active@;
                if c < selected {
                } else if selected < c {
                }
                assert(c == selected);
            }
        }
        m
    }

    /// Whether identifier `index` matches the filter.
    pub fn matches(&self, index: usize) -> (r: bool)
        ensures
            r == spec_matches(self.id_names(), self.filter@, index as int),
            // An empty filter matches every theme.
            self.filter@.len() == 0 && index < self.ids@.len() ==> r,
    {
        if index >= self.ids.len() {
            return false;
        }
        let needle_s = to_lowercase(self.filter.as_str());
        let needle = chars_of(needle_s.as_str());
        let id = &self.ids[index];
        let lower = to_lowercase(id.as_str());
        let hay = chars_of(lower.as_str());
        proof {
            if self.filter@.len() == 0 {
                assert(needle@.len() == 0);
                assert(hay@.subrange(0, 0int + needle@.len()) =~= needle@);
                assert(contains(hay@, needle@));
            }
        }
        if find(hay.as_slice(), needle.as_slice()) {
            return true;
        }
        let shown = label(id.as_str());
        let lower_label = to_lowercase(shown.as_str());
        let hay2 = chars_of(lower_label.as_str());
        find(hay2.as_slice(), needle.as_slice())
    }

    /// Matching identifiers, in catalog order.
    pub fn matches_indices(&self) -> (v: Vec<usize>)
        ensures
            v@ == spec_matches_indices(self.id_names(), self.filter@),
    {
        let mut v: Vec<usize> = Vec::new();
        let mut i: usize = 0;
        while i < self.ids.len()
            invariant
                i <= self.ids@.len(),
                v@ == matches_below(self.id_names(), self.filter@, i as int),
            decreases self.ids@.len() - i,
        {
            if self.matches(i) {
                v.push(i);
            }
            i += 1;
        }
        v
    }

    /// The selection, when it matches the filter.
    pub fn selected(&self) -> (r: Option<usize>)
        ensures
            r == (if spec_matches(self.id_names(), self.filter@, self.selection()) { Some(self.selected) } else { None::<usize> }),
    {
        if self.matches(self.selected) { Some(self.selected) } else { None }
    }

    /// Identifier of the selection, when it matches the filter.
    pub fn selected_id(&self) -> (r: Option<&str>)
        ensures
            r is Some == spec_matches(self.id_names(), self.filter@, self.selection()),
            r is Some ==> r->0@ == self.id_names()[self.selection()],
    {
        match self.selected() {
            Some(i) => Some(self.ids[i].as_str()),
            None => None,
        }
    }

    /// Label of the selection; empty without a filter, `No matches` otherwise.
    pub fn current_label(&self) -> (r: String)
        ensures
            spec_matches(self.id_names(), self.filter@, self.selection()) ==> r@ == spec_label(self.id_names()[self.selection()]),
            !spec_matches(self.id_names(), self.filter@, self.selection()) && self.filter@.len() == 0 ==> r@ == Seq::<char>::empty(),
            !spec_matches(self.id_names(), self.filter@, self.selection()) && self.filter@.len() > 0 ==> r@ == "No matches"@,
    {
        match self.selected_id() {
            Some(id) => label(id),
            None => {
                let filter = chars_of(self.filter.as_str());
                if filter.len() == 0 {
                    String::new()
                } else {
                    "No matches".to_owned()
                }
            },
        }
    }

    fn refilter(&mut self)
        ensures
            final(self).ids == old(self).ids,
            final(self).filter == old(self).filter,
            final(self).selected == spec_refilter(old(self).id_names(), old(self).filter@, old(self).selected as int),
    {
        if !self.matches(self.selected) {
            let m = self.matches_indices();
            if m.len() > 0 {
                self.selected = m[0];
            }
        }
    }

    /// New catalog: the selected identifier stays selected when it is still
    /// listed, then the selection is filtered again.
    pub fn replace(&mut self, ids: Vec<String>)
        ensures
            final(self).ids == ids,
            final(self).filter == old(self).filter,
            final(self).selection() == spec_refilter(names(ids@), old(self).filter@,
                index_of(names(ids@), if old(self).selected < old(self).ids@.len() { old(self).id_names()[old(self).selected as int] } else { Seq::empty() })),
    {
        let previous = if self.selected < self.ids.len() { self.ids[self.selected].clone() } else { String::new() };
        let fresh = Model::new(ids, previous.as_str());
        self.ids = fresh.ids;
        self.selected = fresh.selected;
        self.refilter();
    }

    /// `filter` with the characters of `text` appended, control characters left out.
    fn append_printable(filter: &String, text: &String) -> (r: String)
        ensures
            r@ == filter@ + printable(text@),
    {
        let chars = chars_of(text.as_str());
        let mut out = filter.clone();
        let mut i: usize = 0;
        while i < chars.len()
            invariant
                chars@ == text@,
                i <= chars@.len(),
                out@ == filter@ + printable(chars@.take(i as int)),
            decreases chars@.len() - i,
        {
            let c = chars[i];
            assert(chars@.take(i + 1).drop_last() =~= chars@.take(i as int));
            assert(chars@.take(i + 1).last() == c);
            if !char_is_control(c) {
                push_char(&mut out, c);
                assert(filter@ + printable(chars@.take(i as int)).push(c) =~= (filter@ + printable(chars@.take(i as int))).push(c));
            }
            i += 1;
        }
        assert(chars@.take(i as int) =~= text@);
        out
    }

    /// `filter` without its last word and the whitespace after it.
    fn delete_word(filter: &String) -> (r: String)
        ensures
            r@ == spec_delete_word(filter@),
    {
        let chars = chars_of(filter.as_str());
        let ghost s = chars@;
        let mut n: usize = chars.len();
        assert(s.take(n as int) =~= s);
        while n > 0 && char_is_whitespace(chars[n - 1])
            invariant
                s == chars@,
                n <= s.len(),
                strip_end(s, true) == strip_end(s.take(n as int), true),
            decreases n,
        {
            assert(s.take(n as int).drop_last() =~= s.take(n - 1));
            n -= 1;
        }
        let ghost t = s.take(n as int);
        assert(strip_end(s.take(n as int), true) == s.take(n as int));
        while n > 0 && !char_is_whitespace(chars[n - 1])
            invariant
                s == chars@,
                n <= t.len(),
                t.len() <= s.len(),
                t == s.take(t.len() as int),
                strip_end(t, false) == strip_end(s.take(n as int), false),
            decreases n,
        {
            assert(s.take(n as int).drop_last() =~= s.take(n - 1));
            n -= 1;
        }
        assert(strip_end(s.take(n as int), false) == s.take(n as int));
        string_of(chars.as_slice(), n)
    }

    /// `filter` without its last character.
    fn drop_last_char(filter: &String) -> (r: String)
        ensures
            r@ == drop_one(filter@),
    {
        let chars = chars_of(filter.as_str());
        if chars.len() == 0 {
            filter.clone()
        } else {
            assert(chars@.take(chars@.len() - 1) =~= filter@.drop_last());
            string_of(chars.as_slice(), chars.len() - 1)
        }
    }

    /// The neighbouring match of the selection, wrapping around the catalog.
    fn step(&mut self, forward: bool)
        ensures
            final(self).ids == old(self).ids,
            final(self).filter == old(self).filter,
            final(self).selected == spec_step(old(self).id_names(), old(self).filter@, old(self).selected as int, forward),
    {
        let m = self.matches_indices();
        let count = self.ids.len();
        proof {
            lemma_matches_below(self.id_names(), self.filter@, self.ids@.len() as int);
        }
        if m.len() == 0 {
            return;
        }
        let mut p: usize = 0;
        while p < m.len() && m[p] != self.selected
            invariant
                p <= m@.len(),
                forall|k: int| 0 <= k < p ==> m@[k] != self.selected,
            decreases m@.len() - p,
        {
            p += 1;
        }
        let found = p < m.len();
        let ghost mm = m@;
        proof {
            if found {
                assert(exists|q: int| 0 <= q < mm.len() && mm[q] == self.selected);
                let c = choose|q: int| 0 <= q < mm.len() && mm[q] == self.selected;
                if c != p as int {
                    if c < p as int {
                        assert(mm[c] < mm[p as int]);
                    } else {
                        assert(mm[p as int] < mm[c]);
                    }
                }
                assert(position_in(mm, self.selected as int) == p as int);
            } else {
                assert(!(exists|q: int| 0 <= q < mm.len() && mm[q] == self.selected));
                assert(position_in(mm, self.selected as int) == 0);
            }
        }
        let p = if found { p } else { 0 };
        let len = m.len();
        let q = if forward {
            if p + 1 == len { 0 } else { p + 1 }
        } else {
            if p == 0 { len - 1 } else { p - 1 }
        };
        assert(q as int == (if forward { (p + 1) % (len as int) } else { (p + len - 1) % (len as int) })) by (nonlinear_arith)
            requires
                p < len,
                forward ==> q == (if p + 1 == len { 0 } else { p + 1 }),
                !forward ==> q == (if p == 0 { len - 1 } else { p - 1 }),
        ;
        self.selected = m[q];
    }

    /// One key or click of the picker. Browsing never applies: only `Confirm`
    /// and a click on the already selected card return `Apply`.
    pub fn action(&mut self, action: Action) -> (o: Outcome)
        ensures
            ({
                let (filter, selected, outcome) = spec_action(old(self).id_names(), old(self).filter@, old(self).selected as int, action@);
                &&& final(self).filter@ == filter
                &&& final(self).selected == selected
                &&& o@ == outcome
            }),
            final(self).ids == old(self).ids,
    {
        match action {
            Action::Previous => {
                self.step(false);
                Outcome::Nothing
            },
            Action::Next => {
                self.step(true);
                Outcome::Nothing
            },
            Action::Text(text) => {
                self.filter = Model::append_printable(&self.filter, &text);
                self.refilter();
                Outcome::Nothing
            },
            Action::Backspace => {
                self.filter = Model::drop_last_char(&self.filter);
                self.refilter();
                Outcome::Nothing
            },
            Action::DeleteWord => {
                self.filter = Model::delete_word(&self.filter);
                self.refilter();
                Outcome::Nothing
            },
            Action::Clear => {
                self.filter = String::new();
                self.refilter();
                Outcome::Nothing
            },
            Action::Escape => {
                let filter = chars_of(self.filter.as_str());
                if filter.len() == 0 {
                    return Outcome::Cancel;
                }
                self.filter = String::new();
                self.refilter();
                Outcome::Nothing
            },
            Action::Confirm => match self.selected_id() {
                Some(id) => Outcome::Apply(id.to_owned()),
                None => Outcome::Cancel,
            },
            Action::Click(i) => {
                if self.matches(i) {
                    if self.selected == i {
                        return Outcome::Apply(self.ids[i].clone());
                    }
                    self.selected = i;
                }
                Outcome::Nothing
            },
        }
    }
}

/// Whenever some theme matches the filter, the selection is on one.
pub open spec fn selection_matches(ids: Seq<Seq<char>>, filter: Seq<char>, selected: int) -> bool {
    spec_matches_indices(ids, filter).len() > 0 ==> spec_matches(ids, filter, selected)
}

proof fn lemma_first_match(ids: Seq<Seq<char>>, filter: Seq<char>)
    requires
        ids.len() <= usize::MAX,
        spec_matches_indices(ids, filter).len() > 0,
    ensures
        spec_matches(ids, filter, spec_matches_indices(ids, filter)[0] as int),
{
    lemma_matches_below(ids, filter, ids.len() as int);
    let m = spec_matches_indices(ids, filter);
    let i = m[0];
    assert(0 <= i < ids.len() && spec_matches(ids, filter, i as int));
}

proof fn lemma_refilter_matches(ids: Seq<Seq<char>>, filter: Seq<char>, selected: int)
    requires
        ids.len() <= usize::MAX,
    ensures
        selection_matches(ids, filter, spec_refilter(ids, filter, selected)),
{
    if spec_matches_indices(ids, filter).len() > 0 {
        lemma_first_match(ids, filter);
    }
}

/// Browsing keeps the selection on a matching theme, and a theme is applied
/// only on confirmation: the selected one, and only when it matches the
/// filter. Moving through the list, typing and clearing never apply.
pub proof fn picker_applies_only_the_matching_selection(ids: Seq<Seq<char>>, filter: Seq<char>, selected: int, action: ActionView)
    requires
        ids.len() <= usize::MAX,
        selection_matches(ids, filter, selected),
    ensures
        ({
            let (f, s, o) = spec_action(ids, filter, selected, action);
            &&& selection_matches(ids, f, s)
            &&& (o matches OutcomeView::Apply(id) ==> spec_matches(ids, f, s) && ids[s] == id)
            &&& (o matches OutcomeView::Apply(_) ==> action is Confirm || action is Click)
        }),
{
    match action {
        ActionView::Previous | ActionView::Next => {
            let m = spec_matches_indices(ids, filter);
            if m.len() > 0 {
                lemma_matches_below(ids, filter, ids.len() as int);
                let p = position_in(m, selected);
                let forward = action is Next;
                let q = if forward { (p + 1) % (m.len() as int) } else { (p + m.len() - 1) % (m.len() as int) };
                assert(0 <= p < m.len());
                assert(0 <= q < m.len());
                assert(spec_matches(ids, filter, m[q] as int));
            }
        },
        ActionView::Text(t) => lemma_refilter_matches(ids, filter + printable(t), selected),
        ActionView::Backspace => lemma_refilter_matches(ids, drop_one(filter), selected),
        ActionView::DeleteWord => lemma_refilter_matches(ids, spec_delete_word(filter), selected),
        ActionView::Clear => lemma_refilter_matches(ids, Seq::empty(), selected),
        ActionView::Escape => lemma_refilter_matches(ids, Seq::empty(), selected),
        _ => {},
    }
}

/// After a filter or catalog change the selection stays where it is while
/// it still matches; otherwise it moves to the first theme that matches, in
/// catalog order, and stays put when nothing matches.
pub proof fn refilter_selects_the_first_match(ids: Seq<Seq<char>>, filter: Seq<char>, selected: int)
    requires
        ids.len() <= usize::MAX,
    ensures
        spec_matches(ids, filter, selected) ==> spec_refilter(ids, filter, selected) == selected,
        (forall|j: int| !#[trigger] spec_matches(ids, filter, j)) ==> spec_refilter(ids, filter, selected) == selected,
        !spec_matches(ids, filter, selected) && (exists|j: int| #[trigger] spec_matches(ids, filter, j)) ==> {
            let s = spec_refilter(ids, filter, selected);
            &&& spec_matches(ids, filter, s)
            &&& forall|j: int| 0 <= j < s ==> !#[trigger] spec_matches(ids, filter, j)
        },
{
    let n = ids.len() as int;
    lemma_matches_below(ids, filter, n);
    let m = spec_matches_indices(ids, filter);
    if exists|j: int| #[trigger] spec_matches(ids, filter, j) {
        let j = choose|j: int| #[trigger] spec_matches(ids, filter, j);
        assert(0 <= j < n);
        assert(m.len() > 0);
        let first = m[0] as int;
        assert(spec_matches(ids, filter, first));
        assert forall|k: int| 0 <= k < first implies !#[trigger] spec_matches(ids, filter, k) by {
            if spec_matches(ids, filter, k) {
                let p = choose|p: int| 0 <= p < m.len() && m[p] == k;
                if p > 0 {
                    assert(m[0] < m[p]);
                }
            }
        }
    } else {
        if m.len() > 0 {
            assert(spec_matches(ids, filter, m[0] as int));
        }
    }
}

} // verus!

