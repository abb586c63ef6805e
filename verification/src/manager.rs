//! The window manager's decisions. `Desk` holds what the manager decides
//! on: the managed windows, the active workspace and its monitors, focus,
//! and the bar's popups; `dispatch` takes one event to the next desk and the
//! effects for the platform layer to carry out. Layout commands, launch
//! lookups and display changes are decided here too. Window rectangles,
//! minimised states, popups and applets are read and driven by the platform
//! layer. Times are nanoseconds on the manager's monotonic clock.
use crate::geometry::{half, Rect};
use crate::text::{push_text, same_str};
use vstd::prelude::*;

verus! {

/// How long after a press on the bar closed a popup its module click is
/// still ignored.
pub const REOPEN_GUARD_NANOS: u64 = 500_000_000;

/// Whether the module click on `target` at `now` follows the press that
/// closed `target`'s popup: the popup closed at `at` by such a press is
/// remembered in `just_closed`. The memory is used up by any click.
pub fn reopen_blocked(just_closed: &mut Option<(String, u64)>, target: &str, now: u64) -> (skip: bool)
    ensures
        skip == (match *old(just_closed) {
            Some((k, at)) => k@ == target@ && now - at < REOPEN_GUARD_NANOS,
            None => false,
        }),
        *final(just_closed) is None,
{
    let closed = just_closed.take();
    match closed {
        Some((k, at)) => same_str(k.as_str(), target) && (now < at || now - at < REOPEN_GUARD_NANOS),
        None => false,
    }
}

/// The monitor index that `index` becomes when `count` monitors remain: the
/// last one when it is gone, the first when none remain.
pub open spec fn clamped(index: usize, count: usize) -> usize {
    if count == 0 {
        0
    } else if index < count {
        index
    } else {
        (count - 1) as usize
    }
}

/// After the displays change: every workspace whose monitor is gone moves to
/// the last one that remains.
pub fn clamp_monitors(indices: &mut Vec<usize>, count: usize)
    ensures
        final(indices)@.len() == old(indices)@.len(),
        forall|i: int| 0 <= i < old(indices)@.len() ==> #[trigger] final(indices)@[i] == clamped(old(indices)@[i], count),
{
    let last: usize = if count == 0 { 0 } else { count - 1 };
    let mut i: usize = 0;
    while i < indices.len()
        invariant
            i <= indices@.len(),
            indices@.len() == old(indices)@.len(),
            last == (if count == 0 { 0 } else { count - 1 }),
            forall|j: int| 0 <= j < i ==> #[trigger] indices@[j] == clamped(old(indices)@[j], count),
            forall|j: int| i <= j < indices@.len() ==> #[trigger] indices@[j] == old(indices)@[j],
        decreases indices@.len() - i,
    {
        if indices[i] > last {
            indices.set(i, last);
        }
        i += 1;
    }
}

/// `v / d` rounded toward zero, as integer division in Rust.
pub open spec fn div_trunc(v: int, d: int) -> int {
    if v >= 0 { v / d } else { -((-v) / d) }
}

/// A window's mode in the layout, with the rectangle it returns to when it
/// leaves fullscreen.
#[derive(Clone, Copy, Debug, PartialEq, Eq)]
pub struct WindowFlags {
    pub floating: bool,
    pub fullscreen: bool,
    pub restore: Rect,
}

/// The commands that change a window's mode.
#[derive(Clone, Copy, Debug, PartialEq, Eq)]
pub enum LayoutCommand {
    Tile,
    Float,
    Fullscreen,
}

/// Where the window goes after a mode change, besides the next layout pass.
#[derive(Clone, Copy, Debug, PartialEq, Eq)]
pub enum Placement {
    /// Wherever the layout puts it.
    Stay,
    /// Floated: this rectangle, framed, becomes its restore rectangle and
    /// the window is placed there.
    FloatAt(Rect),
    /// Out of fullscreen: back to this rectangle.
    Restore(Rect),
}

/// A floated window takes the middle two thirds of the work area.
pub open spec fn float_rect(area: Rect) -> Rect {
    Rect {
        x: (area.x + div_trunc(area.w as int, 6)) as i32,
        y: (area.y + div_trunc(area.h as int, 6)) as i32,
        w: div_trunc(area.w * 2, 3) as i32,
        h: div_trunc(area.h * 2, 3) as i32,
    }
}

/// Whether the float rectangle of `area` fits in `i32`.
pub open spec fn float_rect_fits(area: Rect) -> bool {
    &&& i32::MIN <= area.x + div_trunc(area.w as int, 6) <= i32::MAX
    &&& i32::MIN <= area.y + div_trunc(area.h as int, 6) <= i32::MAX
}

/// The mode change of `c` on a window in mode `w`, in work area `area`,
/// whose rectangle is now `current`.
pub open spec fn spec_layout(w: WindowFlags, c: LayoutCommand, area: Rect, current: Rect) -> (WindowFlags, Placement) {
    match c {
        LayoutCommand::Tile => (WindowFlags { floating: false, fullscreen: false, restore: w.restore }, Placement::Stay),
        LayoutCommand::Float => {
            let floating = !w.floating;
            (
                WindowFlags { floating, fullscreen: false, restore: w.restore },
                if floating { Placement::FloatAt(float_rect(area)) } else { Placement::Stay },
            )
        },
        LayoutCommand::Fullscreen => {
            let restore = if w.fullscreen { w.restore } else { current };
            let fullscreen = !w.fullscreen;
            (
                WindowFlags { floating: w.floating, fullscreen, restore },
                if fullscreen { Placement::Stay } else { Placement::Restore(restore) },
            )
        },
    }
}

/// Whether `f` lies in the middle two thirds of `length` from `start`,
/// centred up to rounding: `f_start`, `f_length` along one axis.
pub open spec fn middle_third(start: int, length: int, f_start: int, f_length: int) -> bool {
    let left = f_start - start;
    let right = start + length - (f_start + f_length);
    &&& 0 <= left
    &&& left <= right <= left + 2
    &&& 3 * f_length <= 2 * length < 3 * f_length + 3
}

/// Whether rectangle `f` takes the middle two thirds of `area` on both axes.
pub open spec fn fills_the_middle(area: Rect, f: Rect) -> bool {
    middle_third(area.x as int, area.w as int, f.x as int, f.w as int)
        && middle_third(area.y as int, area.h as int, f.y as int, f.h as int)
}

proof fn lemma_middle_third(start: int, length: int)
    requires
        length >= 0,
    ensures
        middle_third(start, length, start + div_trunc(length, 6), div_trunc(length * 2, 3)),
{
    let k = length / 6;
    let r = length % 6;
    assert(length == 6 * k + r && 0 <= r < 6 && k >= 0) by (nonlinear_arith)
        requires
            length >= 0,
            k == length / 6,
            r == length % 6,
    ;
    let t = (length * 2) / 3;
    assert(t == 4 * k + (2 * r) / 3) by (nonlinear_arith)
        requires
            length == 6 * k + r,
            0 <= r < 6,
            t == (length * 2) / 3,
    ;
    assert(0 <= (2 * r) / 3 <= r && r - (2 * r) / 3 <= 2 && 3 * ((2 * r) / 3) <= 2 * r < 3 * ((2 * r) / 3) + 3) by (nonlinear_arith)
        requires
            0 <= r < 6,
    ;
}

/// A floated window takes the middle two thirds of the work area: it lies
/// inside the area, centred on both axes (up to a pixel or two of rounding),
/// two thirds of its width and height.
pub proof fn floated_windows_fill_the_middle(area: Rect)
    requires
        area.w >= 0,
        area.h >= 0,
        float_rect_fits(area),
    ensures
        fills_the_middle(area, float_rect(area)),
{
    lemma_middle_third(area.x as int, area.w as int);
    lemma_middle_third(area.y as int, area.h as int);
    assert(0 <= div_trunc(area.w * 2, 3) <= area.w) by (nonlinear_arith)
        requires
            area.w >= 0,
    ;
    assert(0 <= div_trunc(area.h * 2, 3) <= area.h) by (nonlinear_arith)
        requires
            area.h >= 0,
    ;
}

/// Mode commands undo themselves: fullscreen twice puts the window back
/// where it was before, not floating or floating as before; float twice
/// leaves it tiled or floating as before, out of fullscreen; tile always
/// ends both.
pub proof fn mode_commands_round_trip(w: WindowFlags, area: Rect, current: Rect, later: Rect)
    ensures
        ({
            let (once, _) = spec_layout(w, LayoutCommand::Fullscreen, area, current);
            let (twice, place) = spec_layout(once, LayoutCommand::Fullscreen, area, later);
            !w.fullscreen ==> once.fullscreen && twice.fullscreen == w.fullscreen && twice.floating == w.floating
                && place == Placement::Restore(current)
        }),
        ({
            let (once, _) = spec_layout(w, LayoutCommand::Float, area, current);
            let (twice, _) = spec_layout(once, LayoutCommand::Float, area, later);
            once.floating != w.floating && twice.floating == w.floating && !once.fullscreen && !twice.fullscreen
        }),
        ({
            let (t, place) = spec_layout(w, LayoutCommand::Tile, area, current);
            !t.floating && !t.fullscreen && place == Placement::Stay
        }),
{
}

/// Tile clears floating and fullscreen; Float clears fullscreen and toggles
/// floating, placing a floated window in the middle two thirds of the work
/// area; Fullscreen toggles fullscreen, remembering the window's rectangle
/// on the way in and going back to it on the way out.
pub fn layout_command(w: WindowFlags, c: LayoutCommand, area: Rect, current: Rect) -> (r: (WindowFlags, Placement))
    requires
        float_rect_fits(area),
    ensures
        r == spec_layout(w, c, area, current),
        // A window that starts floating goes to the middle two thirds of the work area.
        c == LayoutCommand::Float && !w.floating && area.w >= 0 && area.h >= 0 ==> (r.1 matches Placement::FloatAt(f) && fills_the_middle(area, f)),
{
    proof {
        if area.w >= 0 && area.h >= 0 {
            floated_windows_fill_the_middle(area);
        }
    }
    match c {
        LayoutCommand::Tile => (WindowFlags { floating: false, fullscreen: false, restore: w.restore }, Placement::Stay),
        LayoutCommand::Float => {
            let floating = !w.floating;
            let flags = WindowFlags { floating, fullscreen: false, restore: w.restore };
            if floating {
                let x = area.x as i64 + area.w as i64 / 6;
                let y = area.y as i64 + area.h as i64 / 6;
                let width = area.w as i64 * 2 / 3;
                let height = area.h as i64 * 2 / 3;
                assert(-0x8000_0000 <= width <= 0x7fff_ffff) by (nonlinear_arith)
                    requires
                        width == div_trunc(area.w * 2, 3),
                        -0x8000_0000 <= area.w <= 0x7fff_ffff,
                ;
                assert(-0x8000_0000 <= height <= 0x7fff_ffff) by (nonlinear_arith)
                    requires
                        height == div_trunc(area.h * 2, 3),
                        -0x8000_0000 <= area.h <= 0x7fff_ffff,
                ;
                (flags, Placement::FloatAt(Rect { x: x as i32, y: y as i32, w: width as i32, h: height as i32 }))
            } else {
                (flags, Placement::Stay)
            }
        },
        LayoutCommand::Fullscreen => {
            let restore = if w.fullscreen { w.restore } else { current };
            let fullscreen = !w.fullscreen;
            (
                WindowFlags { floating: w.floating, fullscreen, restore },
                if fullscreen { Placement::Stay } else { Placement::Restore(restore) },
            )
        },
    }
}

/// Where the first entry named `name` stands in `apps`, if one does.
pub open spec fn app_index(apps: Seq<(String, String)>, name: Seq<char>) -> Option<int>
    decreases apps.len(),
{
    if apps.len() == 0 {
        None
    } else if apps[0].0@ == name {
        Some(0)
    } else {
        match app_index(apps.drop_first(), name) {
            Some(i) => Some(i + 1),
            None => None,
        }
    }
}

proof fn lemma_app_index(apps: Seq<(String, String)>, name: Seq<char>, i: int)
    requires
        0 <= i <= apps.len(),
        forall|j: int| 0 <= j < i ==> apps[j].0@ != name,
    ensures
        match app_index(apps.subrange(i, apps.len() as int), name) {
            Some(k) => app_index(apps, name) == Some(k + i),
            None => app_index(apps, name) is None,
        },
    decreases i,
{
    if i > 0 {
        lemma_app_index(apps.drop_first(), name, i - 1);
        assert(apps.drop_first().subrange(i - 1, apps.drop_first().len() as int) =~= apps.subrange(i, apps.len() as int));
    } else {
        assert(apps.subrange(0, apps.len() as int) =~= apps);
    }
}

/// What launching configured application `name` runs: the target of its
/// entry in `apps` (name, target), or the refusal of an unknown name.
pub fn spawn_target(apps: &[(String, String)], name: &str) -> (r: Result<String, String>)
    ensures
        match app_index(apps@, name@) {
            Some(i) => r matches Ok(t) && t@ == apps@[i].1@,
            None => r matches Err(e) && e@ == "unknown application: "@ + name@,
        },
{
    let mut i: usize = 0;
    while i < apps.len()
        invariant
            i <= apps@.len(),
            forall|j: int| 0 <= j < i ==> apps@[j].0@ != name@,
        decreases apps@.len() - i,
    {
        if same_str(apps[i].0.as_str(), name) {
            proof {
                lemma_app_index(apps@, name@, i as int);
                let rest = apps@.subrange(i as int, apps@.len() as int);
                assert(rest[0] == apps@[i as int]);
            }
            return Ok(apps[i].1.clone());
        }
        i += 1;
    }
    proof {
        lemma_app_index(apps@, name@, i as int);
        assert(apps@.subrange(i as int, apps@.len() as int).len() == 0);
    }
    let mut e = String::from_str("unknown application: ");
    push_text(&mut e, name);
    proof {
        reveal_strlit("unknown application: ");
    }
    Err(e)
}

/// A managed window: its handle and its workspace.
#[derive(Clone, Copy, Debug, PartialEq, Eq)]
pub struct Client {
    pub id: isize,
    pub workspace: u8,
}

/// Whether `id` is a managed window on workspace `active`.
pub open spec fn on_workspace(clients: Seq<Client>, id: isize, active: u8) -> bool {
    exists|i: int| 0 <= i < clients.len() && #[trigger] clients[i].id == id && clients[i].workspace == active
}

/// Where the first managed window with handle `id` stands, if any.
pub open spec fn first_client(clients: Seq<Client>, id: isize) -> Option<int> {
    if exists|i: int| 0 <= i < clients.len() && #[trigger] clients[i].id == id {
        Some(choose|i: int| 0 <= i < clients.len() && #[trigger] clients[i].id == id
            && forall|j: int| 0 <= j < i ==> clients[j].id != id)
    } else {
        None
    }
}

/// The focused window once the foreground window `fg` is known: `fg`, when
/// it is a managed window on the active workspace and not minimised; the
/// earlier focus otherwise.
pub fn focus_from_foreground(clients: &[Client], active: u8, focused: Option<isize>, fg: isize, fg_minimized: bool) -> (r: Option<isize>)
    ensures
        r == (if on_workspace(clients@, fg, active) && !fg_minimized { Some(fg) } else { focused }),
{
    if fg_minimized {
        return focused;
    }
    let mut i: usize = 0;
    while i < clients.len()
        invariant
            i <= clients@.len(),
            !fg_minimized,
            forall|j: int| 0 <= j < i ==> !(clients@[j].id == fg && clients@[j].workspace == active),
        decreases clients@.len() - i,
    {
        if clients[i].id == fg && clients[i].workspace == active {
            assert(clients@[i as int].id == fg && clients@[i as int].workspace == active);
            assert(on_workspace(clients@, fg, active));
            return Some(fg);
        }
        i += 1;
    }
    focused
}

/// Whether the centre of `r` lies in the half-open box of monitor `m`.
pub open spec fn holds_centre(m: Rect, r: Rect) -> bool {
    let cx = r.x + half(r.w as int);
    let cy = r.y + half(r.h as int);
    m.x <= cx < m.x + m.w && m.y <= cy < m.y + m.h
}

/// The first of `monitors` that holds the centre of `r`, if any.
pub fn monitor_at(monitors: &[Rect], r: Rect) -> (i: Option<usize>)
    ensures
        match i {
            Some(k) => k < monitors@.len() && holds_centre(monitors@[k as int], r)
                && forall|j: int| 0 <= j < k ==> !holds_centre(#[trigger] monitors@[j], r),
            None => forall|j: int| 0 <= j < monitors@.len() ==> !holds_centre(#[trigger] monitors@[j], r),
        },
{
    let cx = r.x as i64 + r.w as i64 / 2;
    let cy = r.y as i64 + r.h as i64 / 2;
    let mut k: usize = 0;
    while k < monitors.len()
        invariant
            k <= monitors@.len(),
            cx == r.x + half(r.w as int),
            cy == r.y + half(r.h as int),
            forall|j: int| 0 <= j < k ==> !holds_centre(#[trigger] monitors@[j], r),
        decreases monitors@.len() - k,
    {
        let m = monitors[k];
        if m.x as i64 <= cx && cx < m.x as i64 + m.w as i64 && m.y as i64 <= cy && cy < m.y as i64 + m.h as i64 {
            return Some(k);
        }
        k += 1;
    }
    None
}

/// What the platform layer carries out after an event.
#[derive(Clone, Debug, PartialEq, Eq)]
pub enum Effect {
    /// Rebuild the bar's view of the desk.
    Refresh,
    /// Redraw the window borders.
    Borders,
    /// Close the bar's popup.
    ClosePopup,
    /// Close the open applet.
    CloseApplet,
    /// Open or close this applet's view (after closing the popup).
    ToggleApplet(String),
    /// Show the details popup of this bar module, when it has details.
    ShowDetails(String),
    /// Give this window the foreground.
    Focus(isize),
}

/// An event from the platform layer, with what it read for it.
#[derive(Clone, Debug, PartialEq, Eq)]
pub enum DeskEvent {
    /// Window `id` came to the foreground; whether it is minimised and its rectangle.
    Foreground { id: isize, minimized: bool, rect: Rect },
    /// A mouse press; whether an open applet's window or the popup took it.
    Click { on_applet: bool, on_popup: bool, now: u64 },
    /// A click on bar module `kind`, which stands for applet or module `target`.
    Module { kind: String, target: String, is_applet: bool, now: u64 },
    /// The mouse entered window `id`.
    Mouse { id: isize },
    /// Escape closed the popups.
    Escape,
}

/// What the window manager decides on.
pub struct Desk {
    pub clients: Vec<Client>,
    /// The active workspace, from 1.
    pub active: u8,
    pub focused: Option<isize>,
    pub monitors: Vec<Rect>,
    /// The monitor of each workspace, the first workspace's first.
    pub workspace_monitors: Vec<usize>,
    /// Placement changed since it was last saved.
    pub dirty: bool,
    /// The bar module whose popup is open.
    pub popup_open: Option<String>,
    /// The applet whose view is open.
    pub applet_open: Option<String>,
    /// The popup that a press on the bar just closed, and when.
    pub just_closed: Option<(String, u64)>,
    pub focus_follows_mouse: bool,
    pub launcher_visible: bool,
}

/// The name of the popup or applet that is open, the applet first.
pub open spec fn open_view(applet: Option<String>, popup: Option<String>) -> Option<String> {
    match applet {
        Some(a) => Some(a),
        None => popup,
    }
}

impl Desk {
    /// Foreground: a managed window on the active workspace that is not
    /// minimised takes the focus, and the active workspace moves to the first
    /// monitor holding the window's centre.
    fn foreground(&mut self, id: isize, minimized: bool, rect: Rect) -> (effects: Vec<Effect>)
        requires
            1 <= old(self).active <= old(self).workspace_monitors@.len(),
        ensures
            ({
                let i = first_client(old(self).clients@, id);
                let takes = i matches Some(k) && old(self).clients@[k].workspace == old(self).active && !minimized;
                let m = choose|k: int| 0 <= k < old(self).monitors@.len() && holds_centre(#[trigger] old(self).monitors@[k], rect)
                    && forall|j: int| 0 <= j < k ==> !holds_centre(#[trigger] old(self).monitors@[j], rect);
                let found = exists|k: int| 0 <= k < old(self).monitors@.len() && holds_centre(#[trigger] old(self).monitors@[k], rect);
                &&& final(self).focused == (if takes { Some(id) } else { old(self).focused })
                &&& final(self).workspace_monitors@ == (if takes && found {
                        old(self).workspace_monitors@.update(old(self).active - 1, m as usize)
                    } else {
                        old(self).workspace_monitors@
                    })
                &&& final(self).dirty == (old(self).dirty || (takes && found))
            }),
            final(self).clients == old(self).clients,
            final(self).active == old(self).active,
            final(self).monitors == old(self).monitors,
            final(self).popup_open == old(self).popup_open,
            final(self).applet_open == old(self).applet_open,
            final(self).just_closed == old(self).just_closed,
            final(self).focus_follows_mouse == old(self).focus_follows_mouse,
            final(self).launcher_visible == old(self).launcher_visible,
            effects@ == seq![Effect::Refresh, Effect::Borders],
    {
        let mut i: usize = 0;
        while i < self.clients.len() && self.clients[i].id != id
            invariant
                i <= self.clients@.len(),
                forall|j: int| 0 <= j < i ==> self.clients@[j].id != id,
            decreases self.clients@.len() - i,
        {
            i += 1;
        }
        proof {
            if i < self.clients@.len() {
                let w = choose|k: int| 0 <= k < self.clients@.len() && #[trigger] self.clients@[k].id == id
                    && forall|j: int| 0 <= j < k ==> self.clients@[j].id != id;
                assert(0 <= i < self.clients@.len() && self.clients@[i as int].id == id
                    && forall|j: int| 0 <= j < i ==> self.clients@[j].id != id);
                if w < i {
                    assert(self.clients@[w].id != id);
                } else if w > i {
                    assert(self.clients@[i as int].id != id);
                }
                assert(first_client(self.clients@, id) == Some(i as int));
            } else {
                assert(first_client(self.clients@, id) is None);
            }
        }
        if i < self.clients.len() && self.clients[i].workspace == self.active && !minimized {
            self.focused = Some(id);
            let found = monitor_at(self.monitors.as_slice(), rect);
            match found {
                Some(k) => {
                    proof {
                        let m = choose|q: int| 0 <= q < self.monitors@.len() && holds_centre(#[trigger] self.monitors@[q], rect)
                            && forall|j: int| 0 <= j < q ==> !holds_centre(#[trigger] self.monitors@[j], rect);
                        assert(0 <= k < self.monitors@.len() && holds_centre(self.monitors@[k as int], rect));
                        if m < k {
                            assert(!holds_centre(self.monitors@[m], rect));
                        } else if m > k {
                            assert(!holds_centre(self.monitors@[k as int], rect));
                        }
                        assert(m == k);
                    }
                    let slot = (self.active - 1) as usize;
                    self.workspace_monitors.set(slot, k);
                    self.dirty = true;
                },
                None => {},
            }
        }
        vec![Effect::Refresh, Effect::Borders]
    }

    /// One event: the next desk and what the platform layer does.
    /// - Foreground: see `foreground`.
    /// - A press outside an open applet's window and the popup closes both,
    ///   and remembers what was open, with the time.
    /// - A module click right after that press on the same module does
    ///   nothing; otherwise an applet closes the popup and toggles, the open
    ///   popup's module closes it, and any other module shows its details.
    /// - Focus follows the mouse when that is enabled, the launcher is
    ///   hidden, and the window is on the active workspace.
    /// - Escape closes the popup and the applet.
    pub fn dispatch(&mut self, e: DeskEvent) -> (effects: Vec<Effect>)
        requires
            e is Foreground ==> 1 <= old(self).active <= old(self).workspace_monitors@.len(),
        ensures
            final(self).clients == old(self).clients,
            final(self).active == old(self).active,
            final(self).monitors == old(self).monitors,
            final(self).focus_follows_mouse == old(self).focus_follows_mouse,
            final(self).launcher_visible == old(self).launcher_visible,
            !(e is Foreground) ==> final(self).workspace_monitors == old(self).workspace_monitors && final(self).dirty == old(self).dirty,
            !(e is Foreground || e is Mouse) ==> final(self).focused == old(self).focused,
            match e {
                DeskEvent::Foreground { id, minimized, rect } => {
                    let i = first_client(old(self).clients@, id);
                    let takes = i matches Some(k) && old(self).clients@[k].workspace == old(self).active && !minimized;
                    let m = choose|k: int| 0 <= k < old(self).monitors@.len() && holds_centre(#[trigger] old(self).monitors@[k], rect)
                        && forall|j: int| 0 <= j < k ==> !holds_centre(#[trigger] old(self).monitors@[j], rect);
                    let found = exists|k: int| 0 <= k < old(self).monitors@.len() && holds_centre(#[trigger] old(self).monitors@[k], rect);
                    &&& final(self).focused == (if takes { Some(id) } else { old(self).focused })
                    &&& final(self).workspace_monitors@ == (if takes && found {
                            old(self).workspace_monitors@.update(old(self).active - 1, m as usize)
                        } else {
                            old(self).workspace_monitors@
                        })
                    &&& final(self).dirty == (old(self).dirty || (takes && found))
                    &&& final(self).popup_open == old(self).popup_open
                    &&& final(self).applet_open == old(self).applet_open
                    &&& final(self).just_closed == old(self).just_closed
                    &&& effects@ == seq![Effect::Refresh, Effect::Borders]
                },
                DeskEvent::Click { on_applet, on_popup, now } => if !on_applet && !on_popup {
                    &&& final(self).popup_open is None
                    &&& final(self).applet_open is None
                    &&& final(self).just_closed == (match open_view(old(self).applet_open, old(self).popup_open) {
                            Some(k) => Some((k, now)),
                            None => None,
                        })
                    &&& effects@ == seq![Effect::ClosePopup, Effect::CloseApplet]
                } else {
                    &&& final(self).popup_open == old(self).popup_open
                    &&& final(self).applet_open == old(self).applet_open
                    &&& final(self).just_closed == old(self).just_closed
                    &&& effects@.len() == 0
                },
                DeskEvent::Module { kind, target, is_applet, now } => {
                    let blocked = match old(self).just_closed {
                        Some((k, at)) => k@ == target@ && now - at < REOPEN_GUARD_NANOS,
                        None => false,
                    };
                    &&& final(self).just_closed is None
                    &&& final(self).applet_open == old(self).applet_open
                    &&& if blocked {
                        final(self).popup_open == old(self).popup_open && effects@.len() == 0
                    } else if is_applet {
                        final(self).popup_open is None && effects@ == seq![Effect::ClosePopup, Effect::ToggleApplet(target)]
                    } else if old(self).popup_open matches Some(p) && p@ == kind@ {
                        final(self).popup_open is None && effects@ == seq![Effect::ClosePopup]
                    } else {
                        final(self).popup_open == old(self).popup_open && effects@ == seq![Effect::ShowDetails(kind)]
                    }
                },
                DeskEvent::Mouse { id } => {
                    let follows = old(self).focus_follows_mouse && !old(self).launcher_visible
                        && on_workspace(old(self).clients@, id, old(self).active);
                    &&& final(self).focused == (if follows { Some(id) } else { old(self).focused })
                    &&& final(self).popup_open == old(self).popup_open
                    &&& final(self).applet_open == old(self).applet_open
                    &&& final(self).just_closed == old(self).just_closed
                    &&& effects@ == (if follows { seq![Effect::Focus(id)] } else { Seq::empty() })
                },
                DeskEvent::Escape => {
                    &&& final(self).popup_open is None
                    &&& final(self).applet_open is None
                    &&& final(self).just_closed == old(self).just_closed
                    &&& effects@ == seq![Effect::ClosePopup, Effect::CloseApplet]
                },
            },
    {
        match e {
            DeskEvent::Foreground { id, minimized, rect } => self.foreground(id, minimized, rect),
            DeskEvent::Click { on_applet, on_popup, now } => {
                if on_applet || on_popup {
                    return Vec::new();
                }
                let applet = self.applet_open.take();
                let popup = self.popup_open.take();
                let open = match applet {
                    Some(a) => Some(a),
                    None => popup,
                };
                self.just_closed = match open {
                    Some(k) => Some((k, now)),
                    None => None,
                };
                vec![Effect::ClosePopup, Effect::CloseApplet]
            },
            DeskEvent::Module { kind, target, is_applet, now } => {
                if reopen_blocked(&mut self.just_closed, target.as_str(), now) {
                    return Vec::new();
                }
                if is_applet {
                    self.popup_open = None;
                    return vec![Effect::ClosePopup, Effect::ToggleApplet(target)];
                }
                let same = match &self.popup_open {
                    Some(p) => same_str(p.as_str(), kind.as_str()),
                    None => false,
                };
                if same {
                    self.popup_open = None;
                    vec![Effect::ClosePopup]
                } else {
                    vec![Effect::ShowDetails(kind)]
                }
            },
            DeskEvent::Mouse { id } => {
                if self.focus_follows_mouse && !self.launcher_visible {
                    let found = focus_from_foreground(self.clients.as_slice(), self.active, None, id, false);
                    if found.is_some() {
                        self.focused = Some(id);
                        return vec![Effect::Focus(id)];
                    }
                }
                Vec::new()
            },
            DeskEvent::Escape => {
                self.popup_open = None;
                self.applet_open = None;
                vec![Effect::ClosePopup, Effect::CloseApplet]
            },
        }
    }
}

} // verus!
