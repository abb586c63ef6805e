//! Placement memory across daemon restarts. Windows outlive the daemon, so a
//! window identifier stays a valid key; the process behind it is checked
//! against reuse. Reading and writing the file belong to the platform layer;
//! this module decides what a freshly read state may keep.
use crate::geometry::Rect;
use crate::text::{char_is_control, char_is_whitespace, chars_of, is_control, is_whitespace, same_str};
use vstd::prelude::*;

verus! {

/// Size limit of the state file.
pub const MAX_STATE_BYTES: usize = 1024 * 1024;

/// Longest space name, in characters.
pub const MAX_SPACE_NAME_CHARS: usize = 24;

#[derive(Debug, Clone, PartialEq, Eq)]
pub struct Placement {
    pub id: isize,
    pub pid: u32,
    pub exe: String,
    /// Files written before spaces existed load into the default space 0.
    pub space: u32,
    pub workspace: u8,
    pub floating: bool,
    pub fullscreen: bool,
    pub restore: Rect,
}

#[derive(Debug, Clone, PartialEq, Eq)]
pub struct SavedSpace {
    pub id: u32,
    pub name: String,
    pub active: u8,
    pub recent: u8,
    pub monitors: [usize; 9],
}

#[derive(Debug, Clone, PartialEq, Eq)]
pub struct State {
    pub active: u8,
    pub recent: u8,
    pub monitors: [usize; 9],
    /// Tile order is the vector order.
    pub clients: Vec<Placement>,
    /// The top-level workspace fields belong to this space.
    pub space: u32,
    pub recent_space: u32,
    pub spaces: Vec<SavedSpace>,
}

impl Default for State {
    fn default() -> (s: Self)
        ensures
            s.active == 0 && s.recent == 0 && s.space == 0 && s.recent_space == 0,
            forall|i: int| 0 <= i < 9 ==> s.monitors[i] == 0,
            s.clients@.len() == 0,
            s.spaces@.len() == 0,
    {
        State {
            active: 0,
            recent: 0,
            monitors: [0; 9],
            clients: Vec::new(),
            space: 0,
            recent_space: 0,
            spaces: Vec::new(),
        }
    }
}

/// Workspaces are numbered 1 to 9.
pub open spec fn is_workspace(n: u8) -> bool {
    1 <= n <= 9
}

/// The active workspace, 1 when out of range.
pub open spec fn norm_active(active: u8) -> u8 {
    if is_workspace(active) { active } else { 1 }
}

/// The previous workspace, the active one when out of range.
pub open spec fn norm_recent(recent: u8, active: u8) -> u8 {
    if is_workspace(recent) { recent } else { active }
}

/// A space name: 1 to 24 characters, none of them whitespace or control.
pub open spec fn spec_valid_space_name(name: Seq<char>) -> bool {
    &&& 0 < name.len() <= MAX_SPACE_NAME_CHARS
    &&& forall|i: int| 0 <= i < name.len() ==> !is_whitespace(#[trigger] name[i]) && !is_control(name[i])
}

/// Whether `name` may name a space.
pub fn valid_space_name(name: &str) -> (r: bool)
    ensures
        r == spec_valid_space_name(name@),
{
    let chars = chars_of(name);
    if chars.len() == 0 || chars.len() > MAX_SPACE_NAME_CHARS {
        return false;
    }
    let mut i: usize = 0;
    while i < chars.len()
        invariant
            chars@ == name@,
            i <= chars@.len(),
            forall|j: int| 0 <= j < i ==> !is_whitespace(#[trigger] chars@[j]) && !is_control(chars@[j]),
        decreases chars@.len() - i,
    {
        if char_is_whitespace(chars[i]) || char_is_control(chars[i]) {
            return false;
        }
        i += 1;
    }
    true
}

/// Clients whose workspace is in range, in order.
pub open spec fn kept_clients(clients: Seq<Placement>) -> Seq<Placement>
    decreases clients.len(),
{
    if clients.len() == 0 {
        Seq::empty()
    } else {
        let before = kept_clients(clients.drop_last());
        if is_workspace(clients.last().workspace) { before.push(clients.last()) } else { before }
    }
}

/// Spaces kept by name validity and first occurrence, with the identifiers
/// and names already claimed. An identifier is claimed by every space with a
/// valid name; a name only by the spaces that are kept.
pub open spec fn kept_spaces(spaces: Seq<SavedSpace>) -> (Seq<SavedSpace>, Seq<u32>, Seq<Seq<char>>)
    decreases spaces.len(),
{
    if spaces.len() == 0 {
        (Seq::empty(), Seq::empty(), Seq::empty())
    } else {
        let (kept, ids, names) = kept_spaces(spaces.drop_last());
        let s = spaces.last();
        if !spec_valid_space_name(s.name@) || ids.contains(s.id) {
            (kept, ids, names)
        } else if names.contains(s.name@) {
            (kept, ids.push(s.id), names)
        } else {
            (kept.push(s), ids.push(s.id), names.push(s.name@))
        }
    }
}

/// A saved space with its workspace fields brought into range.
pub open spec fn norm_space(s: SavedSpace) -> SavedSpace {
    SavedSpace {
        id: s.id,
        name: s.name,
        active: norm_active(s.active),
        recent: norm_recent(s.recent, norm_active(s.active)),
        monitors: s.monitors,
    }
}

/// Valid spaces, at most `max` of them, before the current space is checked.
pub open spec fn candidate_spaces(spaces: Seq<SavedSpace>, max: nat) -> Seq<SavedSpace> {
    let kept = kept_spaces(spaces).0;
    let cut = if kept.len() <= max { kept } else { kept.take(max as int) };
    cut.map_values(|s: SavedSpace| norm_space(s))
}

pub open spec fn has_space(spaces: Seq<SavedSpace>, id: u32) -> bool {
    exists|i: int| 0 <= i < spaces.len() && spaces[i].id == id
}

/// Spaces after loading: all of them dropped when the current one is missing.
pub open spec fn spec_spaces(s: State, max: nat) -> Seq<SavedSpace> {
    let c = candidate_spaces(s.spaces@, max);
    if has_space(c, s.space) { c } else { Seq::empty() }
}

/// The current space after loading: the default space 0 when it is missing.
pub open spec fn spec_space(s: State, max: nat) -> u32 {
    if has_space(candidate_spaces(s.spaces@, max), s.space) { s.space } else { 0 }
}

pub open spec fn spec_recent_space(s: State, max: nat) -> u32 {
    if has_space(spec_spaces(s, max), s.recent_space) { s.recent_space } else { spec_space(s, max) }
}

pub open spec fn with_space(p: Placement, space: u32) -> Placement {
    Placement {
        id: p.id,
        pid: p.pid,
        exe: p.exe,
        space,
        workspace: p.workspace,
        floating: p.floating,
        fullscreen: p.fullscreen,
        restore: p.restore,
    }
}

/// Clients after loading: in range, each in a known space or else in the current one.
pub open spec fn spec_clients(s: State, max: nat) -> Seq<Placement> {
    let spaces = spec_spaces(s, max);
    let current = spec_space(s, max);
    kept_clients(s.clients@).map_values(|c: Placement| if has_space(spaces, c.space) { c } else { with_space(c, current) })
}

/// Whether a window answered by `answer` is still the remembered one.
pub open spec fn still_alive(c: Placement, answer: Option<(u32, String)>) -> bool {
    match answer {
        Some((pid, exe)) => pid == c.pid && exe@ == c.exe@,
        None => false,
    }
}

/// The clients whose answers show the same process, in order.
pub open spec fn alive_clients(clients: Seq<Placement>, answers: Seq<Option<(u32, String)>>) -> Seq<Placement>
    decreases clients.len(),
{
    if clients.len() == 0 {
        Seq::empty()
    } else {
        let before = alive_clients(clients.drop_last(), answers);
        if still_alive(clients.last(), answers[clients.len() - 1]) { before.push(clients.last()) } else { before }
    }
}

/// Index of the first client of window `id`, the client count when absent.
pub open spec fn order_of(clients: Seq<Placement>, id: isize) -> int
    decreases clients.len(),
{
    if clients.len() == 0 {
        0
    } else if clients[0].id == id {
        0
    } else {
        1 + order_of(clients.drop_first(), id)
    }
}

proof fn lemma_alive_prefix(clients: Seq<Placement>, a: Seq<Option<(u32, String)>>, b: Seq<Option<(u32, String)>>)
    requires
        clients.len() <= a.len(),
        clients.len() <= b.len(),
        forall|i: int| 0 <= i < clients.len() ==> a[i] == b[i],
    ensures
        alive_clients(clients, a) == alive_clients(clients, b),
    decreases clients.len(),
{
    if clients.len() > 0 {
        lemma_alive_prefix(clients.drop_last(), a, b);
    }
}

proof fn lemma_order_of(clients: Seq<Placement>, id: isize, i: int)
    requires
        0 <= i < clients.len(),
        clients[i].id == id,
        forall|j: int| 0 <= j < i ==> clients[j].id != id,
    ensures
        order_of(clients, id) == i,
    decreases i,
{
    if i > 0 {
        lemma_order_of(clients.drop_first(), id, i - 1);
    }
}

proof fn lemma_order_of_absent(clients: Seq<Placement>, id: isize)
    requires
        forall|j: int| 0 <= j < clients.len() ==> clients[j].id != id,
    ensures
        order_of(clients, id) == clients.len(),
    decreases clients.len(),
{
    if clients.len() > 0 {
        lemma_order_of_absent(clients.drop_first(), id);
    }
}

fn copy_placement(c: &Placement) -> (r: Placement)
    ensures
        r == *c,
{
    Placement {
        id: c.id,
        pid: c.pid,
        exe: c.exe.clone(),
        space: c.space,
        workspace: c.workspace,
        floating: c.floating,
        fullscreen: c.fullscreen,
        restore: c.restore,
    }
}

fn copy_space(s: &SavedSpace) -> (r: SavedSpace)
    ensures
        r == *s,
{
    SavedSpace { id: s.id, name: s.name.clone(), active: s.active, recent: s.recent, monitors: s.monitors }
}

fn contains_id(ids: &Vec<u32>, id: u32) -> (r: bool)
    ensures
        r == ids@.contains(id),
{
    let mut i: usize = 0;
    while i < ids.len()
        invariant
            i <= ids@.len(),
            forall|j: int| 0 <= j < i ==> ids@[j] != id,
        decreases ids@.len() - i,
    {
        if ids[i] == id {
            assert(ids@[i as int] == id);
            return true;
        }
        i += 1;
    }
    false
}

fn contains_name(names: &Vec<String>, name: &String) -> (r: bool)
    ensures
        r == names@.map_values(|s: String| s@).contains(name@),
{
    let ghost view = names@.map_values(|s: String| s@);
    let mut i: usize = 0;
    while i < names.len()
        invariant
            view == names@.map_values(|s: String| s@),
            i <= names@.len(),
            forall|j: int| 0 <= j < i ==> view[j] != name@,
        decreases names@.len() - i,
    {
        if same_str(names[i].as_str(), name.as_str()) {
            assert(view[i as int] == name@);
            return true;
        }
        i += 1;
    }
    false
}

fn find_space(spaces: &Vec<SavedSpace>, id: u32) -> (r: bool)
    ensures
        r == has_space(spaces@, id),
{
    let mut i: usize = 0;
    while i < spaces.len()
        invariant
            i <= spaces@.len(),
            forall|j: int| 0 <= j < i ==> spaces@[j].id != id,
        decreases spaces@.len() - i,
    {
        if spaces[i].id == id {
            return true;
        }
        i += 1;
    }
    false
}

impl State {
    /// Brings a freshly read state into range: workspaces 1 to 9, valid and
    /// unique spaces (at most `max_spaces`), a current space that exists
    /// (else no spaces and the default space), clients in known spaces.
    pub fn normalize(&mut self, max_spaces: usize)
        ensures
            final(self).active == norm_active(old(self).active),
            final(self).recent == norm_recent(old(self).recent, norm_active(old(self).active)),
            final(self).monitors == old(self).monitors,
            final(self).spaces@ == spec_spaces(*old(self), max_spaces as nat),
            final(self).space == spec_space(*old(self), max_spaces as nat),
            final(self).recent_space == spec_recent_space(*old(self), max_spaces as nat),
            final(self).clients@ == spec_clients(*old(self), max_spaces as nat),
    {
        let ghost original = *self;
        if !(1 <= self.active && self.active <= 9) {
            self.active = 1;
        }
        if !(1 <= self.recent && self.recent <= 9) {
            self.recent = self.active;
        }
        // Clients on a workspace in range.
        let mut clients: Vec<Placement> = Vec::new();
        let mut i: usize = 0;
        while i < self.clients.len()
            invariant
                self.clients == original.clients,
                i <= self.clients@.len(),
                clients@ == kept_clients(self.clients@.take(i as int)),
            decreases self.clients@.len() - i,
        {
            let c = &self.clients[i];
            assert(self.clients@.take(i + 1).drop_last() =~= self.clients@.take(i as int));
            if 1 <= c.workspace && c.workspace <= 9 {
                clients.push(copy_placement(c));
            }
            i += 1;
        }
        assert(self.clients@.take(i as int) =~= self.clients@);
        // Spaces with a valid name, first of their identifier and name.
        let mut kept: Vec<SavedSpace> = Vec::new();
        let mut ids: Vec<u32> = Vec::new();
        let mut names: Vec<String> = Vec::new();
        let mut j: usize = 0;
        while j < self.spaces.len()
            invariant
                self.spaces == original.spaces,
                j <= self.spaces@.len(),
                (kept@, ids@, names@.map_values(|s: String| s@)) == kept_spaces(self.spaces@.take(j as int)),
            decreases self.spaces@.len() - j,
        {
            let s = &self.spaces[j];
            assert(self.spaces@.take(j + 1).drop_last() =~= self.spaces@.take(j as int));
            if valid_space_name(s.name.as_str()) && !contains_id(&ids, s.id) {
                if contains_name(&names, &s.name) {
                    ids.push(s.id);
                } else {
                    let ghost before = names@;
                    ids.push(s.id);
                    names.push(s.name.clone());
                    kept.push(copy_space(s));
                    assert(names@.map_values(|x: String| x@) =~= before.map_values(|x: String| x@).push(s.name@));
                }
            }
            j += 1;
        }
        assert(self.spaces@.take(j as int) =~= self.spaces@);
        // At most `max_spaces`, each with its workspaces in range.
        let mut spaces: Vec<SavedSpace> = Vec::new();
        let mut k: usize = 0;
        let limit = if kept.len() <= max_spaces { kept.len() } else { max_spaces };
        while k < limit
            invariant
                limit <= kept@.len(),
                k <= limit,
                spaces@ == kept@.take(k as int).map_values(|s: SavedSpace| norm_space(s)),
            decreases limit - k,
        {
            let s = &kept[k];
            let active = if 1 <= s.active && s.active <= 9 { s.active } else { 1 };
            let recent = if 1 <= s.recent && s.recent <= 9 { s.recent } else { active };
            spaces.push(SavedSpace { id: s.id, name: s.name.clone(), active, recent, monitors: s.monitors });
            assert(kept@.take(k + 1).map_values(|s: SavedSpace| norm_space(s)) =~= kept@.take(k as int).map_values(|s: SavedSpace| norm_space(s)).push(norm_space(kept@[k as int])));
            k += 1;
        }
        assert(kept@.take(limit as int) =~= (if kept@.len() <= max_spaces { kept@ } else { kept@.take(max_spaces as int) }));
        if !find_space(&spaces, self.space) {
            spaces = Vec::new();
            self.space = 0;
        }
        if !find_space(&spaces, self.recent_space) {
            self.recent_space = self.space;
        }
        // Clients of an unknown space move to the current one.
        let space = self.space;
        let mut moved: Vec<Placement> = Vec::new();
        let mut m: usize = 0;
        while m < clients.len()
            invariant
                m <= clients@.len(),
                moved@ == clients@.take(m as int).map_values(|c: Placement| if has_space(spaces@, c.space) { c } else { with_space(c, space) }),
            decreases clients@.len() - m,
        {
            let c = &clients[m];
            let mut d = copy_placement(c);
            if !find_space(&spaces, c.space) {
                d.space = space;
            }
            moved.push(d);
            assert(clients@.take(m + 1).map_values(|c: Placement| if has_space(spaces@, c.space) { c } else { with_space(c, space) })
                =~= clients@.take(m as int).map_values(|c: Placement| if has_space(spaces@, c.space) { c } else { with_space(c, space) }).push(
                    if has_space(spaces@, clients@[m as int].space) { clients@[m as int] } else { with_space(clients@[m as int], space) }));
            m += 1;
        }
        assert(clients@.take(m as int) =~= clients@);
        self.clients = moved;
        self.spaces = spaces;
    }

    /// Keeps only the entries whose window still belongs to the same process:
    /// `process` reports the process identifier and executable of a window.
    pub fn retain_alive<F: Fn(isize) -> Option<(u32, String)>>(&mut self, process: F)
        requires
            forall|id: isize| call_requires(process, (id,)),
        ensures
            exists|answers: Seq<Option<(u32, String)>>| {
                &&& answers.len() == old(self).clients@.len()
                &&& forall|i: int| 0 <= i < answers.len() ==> call_ensures(process, (#[trigger] old(self).clients@[i].id,), answers[i])
                &&& final(self).clients@ == alive_clients(old(self).clients@, answers)
            },
            final(self).active == old(self).active,
            final(self).recent == old(self).recent,
            final(self).monitors == old(self).monitors,
            final(self).space == old(self).space,
            final(self).recent_space == old(self).recent_space,
            final(self).spaces == old(self).spaces,
    {
        let mut kept: Vec<Placement> = Vec::new();
        let ghost mut answers: Seq<Option<(u32, String)>> = Seq::empty();
        let mut i: usize = 0;
        while i < self.clients.len()
            invariant
                forall|id: isize| call_requires(process, (id,)),
                i <= self.clients@.len(),
                answers.len() == i,
                forall|k: int| 0 <= k < i ==> call_ensures(process, (#[trigger] self.clients@[k].id,), answers[k]),
                kept@ == alive_clients(self.clients@.take(i as int), answers),
            decreases self.clients@.len() - i,
        {
            let c = &self.clients[i];
            let answer = process(c.id);
            let alive = match &answer {
                Some((pid, exe)) => *pid == c.pid && same_str(exe.as_str(), c.exe.as_str()),
                None => false,
            };
            proof {
                assert(self.clients@.take(i + 1).drop_last() =~= self.clients@.take(i as int));
                lemma_alive_prefix(self.clients@.take(i as int), answers, answers.push(answer));
                answers = answers.push(answer);
            }
            if alive {
                kept.push(copy_placement(c));
            }
            i += 1;
        }
        assert(self.clients@.take(i as int) =~= self.clients@);
        self.clients = kept;
    }

    /// The remembered placement of window `id`, the first one if several.
    pub fn placement(&self, id: isize) -> (r: Option<&Placement>)
        ensures
            r is None <==> order_of(self.clients@, id) == self.clients@.len(),
            r is Some ==> *r->0 == self.clients@[order_of(self.clients@, id)],
    {
        let i = self.order(id);
        if i < self.clients.len() {
            Some(&self.clients[i])
        } else {
            None
        }
    }

    /// Saved tile index; unknown windows sort after every remembered one.
    pub fn order(&self, id: isize) -> (r: usize)
        ensures
            order_of(self.clients@, id) < self.clients@.len() ==> r == order_of(self.clients@, id),
            order_of(self.clients@, id) == self.clients@.len() ==> r == usize::MAX,
            order_of(self.clients@, id) <= self.clients@.len(),
    {
        let mut i: usize = 0;
        while i < self.clients.len()
            invariant
                i <= self.clients@.len(),
                forall|j: int| 0 <= j < i ==> self.clients@[j].id != id,
            decreases self.clients@.len() - i,
        {
            if self.clients[i].id == id {
                proof {
                    lemma_order_of(self.clients@, id, i as int);
                }
                return i;
            }
            i += 1;
        }
        proof {
            lemma_order_of_absent(self.clients@, id);
        }
        usize::MAX
    }
}

/// The state as `normalize` leaves it, given by its parts: workspaces in
/// range, at most `max` valid spaces with distinct identifiers and names,
/// a current space that exists (or the default space 0 with no spaces), and
/// every client in a known space or the current one.
pub open spec fn normal_parts(
    active: u8,
    recent: u8,
    clients: Seq<Placement>,
    space: u32,
    recent_space: u32,
    spaces: Seq<SavedSpace>,
    max: nat,
) -> bool {
    &&& is_workspace(active)
    &&& is_workspace(recent)
    &&& forall|i: int| 0 <= i < clients.len() ==> is_workspace(#[trigger] clients[i].workspace)
    &&& spaces.len() <= max
    &&& forall|i: int| 0 <= i < spaces.len() ==> {
        &&& spec_valid_space_name(#[trigger] spaces[i].name@)
        &&& is_workspace(spaces[i].active)
        &&& is_workspace(spaces[i].recent)
    }
    &&& forall|i: int, j: int| 0 <= i < spaces.len() && 0 <= j < spaces.len() && i != j
        ==> #[trigger] spaces[i].id != #[trigger] spaces[j].id && spaces[i].name@ != spaces[j].name@
    &&& spaces.len() > 0 ==> has_space(spaces, space)
    &&& spaces.len() == 0 ==> space == 0
    &&& has_space(spaces, recent_space) || recent_space == space
    &&& forall|i: int| 0 <= i < clients.len() ==> has_space(spaces, #[trigger] clients[i].space) || clients[i].space == space
}

pub open spec fn is_normal(s: State, max: nat) -> bool {
    normal_parts(s.active, s.recent, s.clients@, s.space, s.recent_space, s.spaces@, max)
}

proof fn lemma_kept_clients_in_range(clients: Seq<Placement>)
    ensures
        forall|i: int| 0 <= i < kept_clients(clients).len() ==> is_workspace(#[trigger] kept_clients(clients)[i].workspace),
    decreases clients.len(),
{
    if clients.len() > 0 {
        lemma_kept_clients_in_range(clients.drop_last());
        let before = kept_clients(clients.drop_last());
        assert forall|i: int| 0 <= i < kept_clients(clients).len() implies is_workspace(#[trigger] kept_clients(clients)[i].workspace) by {
            if i < before.len() {
                assert(kept_clients(clients)[i] == before[i]);
            }
        }
    }
}

proof fn lemma_kept_clients_all(clients: Seq<Placement>)
    requires
        forall|i: int| 0 <= i < clients.len() ==> is_workspace(#[trigger] clients[i].workspace),
    ensures
        kept_clients(clients) == clients,
    decreases clients.len(),
{
    if clients.len() > 0 {
        lemma_kept_clients_all(clients.drop_last());
        assert(clients.drop_last().push(clients.last()) =~= clients);
    }
}

/// Spaces that are valid and distinct, with their identifiers among `ids`
/// and exactly their names in `names`.
pub open spec fn spaces_claimed(kept: Seq<SavedSpace>, ids: Seq<u32>, names: Seq<Seq<char>>) -> bool {
    &&& names == kept.map_values(|k: SavedSpace| k.name@)
    &&& forall|i: int| 0 <= i < kept.len() ==> spec_valid_space_name(#[trigger] kept[i].name@) && ids.contains(kept[i].id)
    &&& forall|i: int, j: int| 0 <= i < kept.len() && 0 <= j < kept.len() && i != j
        ==> #[trigger] kept[i].id != #[trigger] kept[j].id && kept[i].name@ != kept[j].name@
}

proof fn lemma_claim_more_ids(kept: Seq<SavedSpace>, ids: Seq<u32>, names: Seq<Seq<char>>, id: u32)
    requires
        spaces_claimed(kept, ids, names),
    ensures
        spaces_claimed(kept, ids.push(id), names),
{
    assert forall|i: int| 0 <= i < kept.len() implies spec_valid_space_name(#[trigger] kept[i].name@) && ids.push(id).contains(kept[i].id) by {
        assert(spec_valid_space_name(kept[i].name@));
        let w = choose|w: int| 0 <= w < ids.len() && ids[w] == kept[i].id;
        assert(ids.push(id)[w] == kept[i].id);
    }
}

proof fn lemma_claim_space(kept: Seq<SavedSpace>, ids: Seq<u32>, names: Seq<Seq<char>>, s: SavedSpace)
    requires
        spaces_claimed(kept, ids, names),
        spec_valid_space_name(s.name@),
        !ids.contains(s.id),
        !names.contains(s.name@),
    ensures
        spaces_claimed(kept.push(s), ids.push(s.id), names.push(s.name@)),
{
    let k2 = kept.push(s);
    assert(names.push(s.name@) =~= k2.map_values(|k: SavedSpace| k.name@));
    assert forall|i: int| 0 <= i < k2.len() implies spec_valid_space_name(#[trigger] k2[i].name@) && ids.push(s.id).contains(k2[i].id) by {
        if i < kept.len() {
            assert(k2[i] == kept[i]);
            assert(spec_valid_space_name(kept[i].name@));
            let w = choose|w: int| 0 <= w < ids.len() && ids[w] == kept[i].id;
            assert(ids.push(s.id)[w] == kept[i].id);
        } else {
            assert(ids.push(s.id)[ids.len() as int] == s.id);
        }
    }
    assert forall|i: int, j: int| 0 <= i < k2.len() && 0 <= j < k2.len() && i != j
        implies #[trigger] k2[i].id != #[trigger] k2[j].id && k2[i].name@ != k2[j].name@ by {
        if i == kept.len() {
            assert(k2[j] == kept[j]);
            assert(spec_valid_space_name(kept[j].name@));
            assert(names[j] == k2[j].name@);
        } else if j == kept.len() {
            assert(k2[i] == kept[i]);
            assert(spec_valid_space_name(kept[i].name@));
            assert(names[i] == k2[i].name@);
        } else {
            assert(k2[i] == kept[i] && k2[j] == kept[j]);
            assert(kept[i].id != kept[j].id);
        }
    }
}

/// What `kept_spaces` keeps: valid, distinct spaces whose identifiers and
/// names it has claimed.
proof fn lemma_kept_spaces_distinct(spaces: Seq<SavedSpace>)
    ensures
        spaces_claimed(kept_spaces(spaces).0, kept_spaces(spaces).1, kept_spaces(spaces).2),
    decreases spaces.len(),
{
    if spaces.len() > 0 {
        lemma_kept_spaces_distinct(spaces.drop_last());
        let (kept, ids, names) = kept_spaces(spaces.drop_last());
        let s = spaces.last();
        if !spec_valid_space_name(s.name@) || ids.contains(s.id) {
        } else if names.contains(s.name@) {
            lemma_claim_more_ids(kept, ids, names, s.id);
        } else {
            lemma_claim_space(kept, ids, names, s);
        }
    } else {
        assert(kept_spaces(spaces).2 =~= kept_spaces(spaces).0.map_values(|k: SavedSpace| k.name@));
    }
}

/// `kept_spaces` keeps every space of a list that is already valid and distinct.
proof fn lemma_kept_spaces_all(spaces: Seq<SavedSpace>)
    requires
        forall|i: int| 0 <= i < spaces.len() ==> spec_valid_space_name(#[trigger] spaces[i].name@),
        forall|i: int, j: int| 0 <= i < spaces.len() && 0 <= j < spaces.len() && i != j
            ==> #[trigger] spaces[i].id != #[trigger] spaces[j].id && spaces[i].name@ != spaces[j].name@,
    ensures
        kept_spaces(spaces) == (spaces, spaces.map_values(|k: SavedSpace| k.id), spaces.map_values(|k: SavedSpace| k.name@)),
    decreases spaces.len(),
{
    if spaces.len() > 0 {
        let d = spaces.drop_last();
        lemma_kept_spaces_all(d);
        let s = spaces.last();
        let ids = d.map_values(|k: SavedSpace| k.id);
        let names = d.map_values(|k: SavedSpace| k.name@);
        assert(!ids.contains(s.id)) by {
            if ids.contains(s.id) {
                let w = choose|w: int| 0 <= w < ids.len() && ids[w] == s.id;
                assert(spaces[w].id == spaces[spaces.len() - 1].id);
            }
        }
        assert(!names.contains(s.name@)) by {
            if names.contains(s.name@) {
                let w = choose|w: int| 0 <= w < names.len() && names[w] == s.name@;
                assert(d[w] == spaces[w]);
                assert(spaces[w].id != spaces[spaces.len() - 1].id);
                assert(spaces[w].name@ == spaces[spaces.len() - 1].name@);
            }
        }
        assert(d.push(s) =~= spaces);
        assert(ids.push(s.id) =~= spaces.map_values(|k: SavedSpace| k.id));
        assert(names.push(s.name@) =~= spaces.map_values(|k: SavedSpace| k.name@));
    }
}

/// Loading, then saving, then loading again gives back the same state:
/// whatever `normalize` produces is normal.
pub proof fn normalize_gives_a_normal_state(s: State, max: nat)
    ensures
        normal_parts(
            norm_active(s.active),
            norm_recent(s.recent, norm_active(s.active)),
            spec_clients(s, max),
            spec_space(s, max),
            spec_recent_space(s, max),
            spec_spaces(s, max),
            max,
        ),
{
    lemma_kept_clients_in_range(s.clients@);
    lemma_kept_spaces_distinct(s.spaces@);
    let kept = kept_spaces(s.spaces@).0;
    let cut = if kept.len() <= max { kept } else { kept.take(max as int) };
    let c = candidate_spaces(s.spaces@, max);
    assert forall|i: int| 0 <= i < cut.len() implies spec_valid_space_name(#[trigger] cut[i].name@) by {
        assert(cut[i] == kept[i]);
    }
    assert forall|i: int, j: int| 0 <= i < cut.len() && 0 <= j < cut.len() && i != j
        implies #[trigger] cut[i].id != #[trigger] cut[j].id && cut[i].name@ != cut[j].name@ by {
        assert(cut[i] == kept[i] && cut[j] == kept[j]);
    }
    assert forall|i: int| 0 <= i < c.len() implies spec_valid_space_name(#[trigger] c[i].name@)
        && is_workspace(c[i].active) && is_workspace(c[i].recent) by {
        assert(c[i] == norm_space(cut[i]));
    }
    assert forall|i: int, j: int| 0 <= i < c.len() && 0 <= j < c.len() && i != j
        implies #[trigger] c[i].id != #[trigger] c[j].id && c[i].name@ != c[j].name@ by {
        assert(c[i] == norm_space(cut[i]) && c[j] == norm_space(cut[j]));
    }
    let spaces = spec_spaces(s, max);
    let current = spec_space(s, max);
    let clients = spec_clients(s, max);
    let k = kept_clients(s.clients@);
    assert forall|i: int| 0 <= i < clients.len() implies is_workspace(#[trigger] clients[i].workspace)
        && (has_space(spaces, clients[i].space) || clients[i].space == current) by {
        assert(k[i].workspace == clients[i].workspace);
    }
    if !has_space(c, s.space) {
        assert(!has_space(spaces, spec_recent_space(s, max)));
    }
}

/// A normal state loads unchanged: `normalize` leaves every part as it is.
pub proof fn normal_states_are_kept(s: State, max: nat)
    requires
        is_normal(s, max),
    ensures
        norm_active(s.active) == s.active,
        norm_recent(s.recent, norm_active(s.active)) == s.recent,
        spec_spaces(s, max) == s.spaces@,
        spec_space(s, max) == s.space,
        spec_recent_space(s, max) == s.recent_space,
        spec_clients(s, max) == s.clients@,
{
    lemma_kept_clients_all(s.clients@);
    lemma_kept_spaces_all(s.spaces@);
    let c = candidate_spaces(s.spaces@, max);
    assert(c =~= s.spaces@) by {
        assert forall|i: int| 0 <= i < c.len() implies c[i] == s.spaces@[i] by {
            assert(spec_valid_space_name(s.spaces@[i].name@));
            assert(is_workspace(s.spaces@[i].active));
        }
    }
    if s.spaces@.len() == 0 {
        assert(!has_space(c, s.space));
    }
    assert(spec_clients(s, max) =~= s.clients@) by {
        assert forall|i: int| 0 <= i < s.clients@.len() implies spec_clients(s, max)[i] == s.clients@[i] by {
            assert(is_workspace(s.clients@[i].workspace));
        }
    }
}

} // verus!

