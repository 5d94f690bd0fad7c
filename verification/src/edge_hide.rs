//! Hiding at the edge of the screen: a window that is dragged to the left, right or upper
//! edge slides out until only a strip of it is left, and slides back when the pointer
//! touches the strip.

use vstd::prelude::*;

verus! {

/// A window this close to an edge of the screen is at that edge, in pixels.
pub const SNAP_GAP: i32 = 8;

/// One part in so many of a hidden window stays on the screen.
pub const SLIVER_DIV: i32 = 4;

/// A window that has not moved for this long was let go of, in milliseconds.
pub const SETTLE_MS: u64 = 350;

/// A slide takes so many steps.
pub const STEPS: i32 = 10;

/// A step of a slide takes this long, in milliseconds.
pub const STEP_MS: u64 = 16;

#[derive(Clone, Copy, PartialEq, Eq, Debug, Structural)]
pub enum Edge {
    Left,
    Right,
    Top,
}

#[derive(Clone, Copy, PartialEq, Eq, Debug, Structural)]
pub struct Position {
    pub x: i32,
    pub y: i32,
}

/// A rectangle on the desktop: of a screen or of a window.
#[derive(Clone, Copy, PartialEq, Eq, Debug, Structural)]
pub struct Area {
    pub x: i32,
    pub y: i32,
    pub width: u32,
    pub height: u32,
}

pub open spec fn fits(n: int) -> bool {
    i32::MIN <= n <= i32::MAX
}

/// Division that rounds toward zero.
pub open spec fn quotient(a: int, b: int) -> int
    recommends
        b > 0,
{
    if a >= 0 {
        a / b
    } else {
        -((-a) / b)
    }
}

pub open spec fn smaller(a: int, b: int) -> int {
    if a <= b {
        a
    } else {
        b
    }
}

pub open spec fn larger(a: int, b: int) -> int {
    if a <= b {
        b
    } else {
        a
    }
}

/// The value nearest to `v` between `lo` and `hi`; `lo` where there is none.
pub open spec fn between(v: int, lo: int, hi: int) -> int {
    smaller(larger(v, lo), larger(hi, lo))
}

impl Area {
    pub open spec fn w(self) -> int {
        (self.width as i32) as int
    }

    pub open spec fn h(self) -> int {
        (self.height as i32) as int
    }

    /// The strip of the width that stays on the screen.
    pub open spec fn strip_w(self) -> int {
        quotient(self.w(), SLIVER_DIV as int)
    }

    pub open spec fn strip_h(self) -> int {
        quotient(self.h(), SLIVER_DIV as int)
    }
}

/// The gaps between a window and the left, right and upper edge of its screen.
pub open spec fn gap_left(screen: Area, window: Area) -> int {
    window.x - screen.x
}

pub open spec fn gap_right(screen: Area, window: Area) -> int {
    (screen.x + screen.w()) - (window.x + window.w())
}

pub open spec fn gap_top(screen: Area, window: Area) -> int {
    window.y - screen.y
}

/// The edge nearest to the window; of edges equally near, left comes before right and
/// right before top.
pub open spec fn nearest_edge(screen: Area, window: Area) -> Edge {
    let l = gap_left(screen, window);
    let r = gap_right(screen, window);
    let t = gap_top(screen, window);
    if l <= r && l <= t {
        Edge::Left
    } else if r <= t {
        Edge::Right
    } else {
        Edge::Top
    }
}

pub open spec fn gap_at(screen: Area, window: Area, edge: Edge) -> int {
    match edge {
        Edge::Left => gap_left(screen, window),
        Edge::Right => gap_right(screen, window),
        Edge::Top => gap_top(screen, window),
    }
}

/// The edge at which the window hides: the nearest one, if it is near enough and the
/// window is smaller than its screen in both directions.
pub open spec fn hiding_edge(screen: Area, window: Area) -> Option<Edge> {
    let edge = nearest_edge(screen, window);
    if window.w() < screen.w() && window.h() < screen.h() && gap_at(screen, window, edge)
        <= SNAP_GAP {
        Some(edge)
    } else {
        None
    }
}

/// Where the window goes to hide at an edge.
pub open spec fn hidden_x(screen: Area, window: Area, edge: Edge) -> int {
    match edge {
        Edge::Left => screen.x - (window.w() - window.strip_w()),
        Edge::Right => screen.x + screen.w() - window.strip_w(),
        Edge::Top => between(
            window.x as int,
            screen.x as int,
            screen.x + screen.w() - window.w(),
        ),
    }
}

pub open spec fn hidden_y(screen: Area, window: Area, edge: Edge) -> int {
    match edge {
        Edge::Top => screen.y - (window.h() - window.strip_h()),
        _ => between(window.y as int, screen.y as int, screen.y + screen.h() - window.h()),
    }
}

/// Everything on the way to the hiding place is a number of 32 bits.
pub open spec fn measurable(screen: Area, window: Area) -> bool {
    window.w() < screen.w() && window.h() < screen.h() ==> {
        &&& fits(gap_left(screen, window))
        &&& fits(screen.x + screen.w())
        &&& fits(window.x + window.w())
        &&& fits(gap_right(screen, window))
        &&& fits(gap_top(screen, window))
        &&& hiding_edge(screen, window) matches Some(edge) ==> {
            &&& fits(hidden_x(screen, window, edge))
            &&& fits(hidden_y(screen, window, edge))
            &&& edge != Edge::Top ==> fits(screen.y + screen.h()) && fits(
                screen.y + screen.h() - window.h(),
            )
            &&& edge == Edge::Top ==> fits(screen.x + screen.w() - window.w())
        }
    }
}

fn clamp(v: i32, lo: i32, hi: i32) -> (r: i32)
    ensures
        r == between(v as int, lo as int, hi as int),
{
    let low: i32 = if v <= lo {
        lo
    } else {
        v
    };
    let high: i32 = if hi <= lo {
        lo
    } else {
        hi
    };
    if low <= high {
        low
    } else {
        high
    }
}

/// The edge at which a window hides, and where it goes to do so.
pub fn hide_target(screen: Area, window: Area) -> (r: Option<(Edge, Position)>)
    requires
        measurable(screen, window),
    ensures
        match r {
            Some((edge, target)) => {
                &&& hiding_edge(screen, window) == Some(edge)
                &&& target.x == hidden_x(screen, window, edge)
                &&& target.y == hidden_y(screen, window, edge)
            },
            None => hiding_edge(screen, window) is None,
        },
{
    let mw: i32 = screen.width as i32;
    let mh: i32 = screen.height as i32;
    let ww: i32 = window.width as i32;
    let wh: i32 = window.height as i32;
    if ww >= mw || wh >= mh {
        return None;
    }
    let left: i32 = window.x - screen.x;
    let right: i32 = (screen.x + mw) - (window.x + ww);
    let top: i32 = window.y - screen.y;
    let edge: Edge = if left <= right && left <= top {
        Edge::Left
    } else if right <= top {
        Edge::Right
    } else {
        Edge::Top
    };
    let gap: i32 = match edge {
        Edge::Left => left,
        Edge::Right => right,
        Edge::Top => top,
    };
    if gap > SNAP_GAP {
        return None;
    }
    let target: Position = match edge {
        Edge::Left => Position {
            x: screen.x - (ww - ww / SLIVER_DIV),
            y: clamp(window.y, screen.y, screen.y + mh - wh),
        },
        Edge::Right => Position {
            x: screen.x + mw - ww / SLIVER_DIV,
            y: clamp(window.y, screen.y, screen.y + mh - wh),
        },
        Edge::Top => Position {
            x: clamp(window.x, screen.x, screen.x + mw - ww),
            y: screen.y - (wh - wh / SLIVER_DIV),
        },
    };
    Some((edge, target))
}

/// A hidden window leaves a quarter of itself on the screen, at the edge where it hides,
/// and stays within the screen along that edge.
pub proof fn law_a_strip_stays(screen: Area, window: Area, edge: Edge)
    requires
        hiding_edge(screen, window) == Some(edge),
        0 <= window.w(),
        0 <= window.h(),
    ensures
        edge == Edge::Left ==> hidden_x(screen, window, edge) + window.w() == screen.x + window.w()
            / SLIVER_DIV as int,
        edge == Edge::Right ==> screen.x + screen.w() - hidden_x(screen, window, edge)
            == window.w() / SLIVER_DIV as int,
        edge == Edge::Top ==> hidden_y(screen, window, edge) + window.h() == screen.y + window.h()
            / SLIVER_DIV as int,
        edge != Edge::Top ==> screen.y <= hidden_y(screen, window, edge) && hidden_y(
            screen,
            window,
            edge,
        ) + window.h() <= screen.y + screen.h(),
        edge == Edge::Top ==> screen.x <= hidden_x(screen, window, edge) && hidden_x(
            screen,
            window,
            edge,
        ) + window.w() <= screen.x + screen.w(),
{
}

/// A window hides exactly if it is smaller than its screen and near one of the three
/// edges, and the edge that it takes is nearest.
pub proof fn law_hides_near_an_edge(screen: Area, window: Area)
    ensures
        hiding_edge(screen, window) is Some <==> window.w() < screen.w() && window.h() < screen.h()
            && (gap_left(screen, window) <= SNAP_GAP || gap_right(screen, window) <= SNAP_GAP
            || gap_top(screen, window) <= SNAP_GAP),
        hiding_edge(screen, window) matches Some(edge) ==> forall|other: Edge|
            gap_at(screen, window, edge) <= gap_at(screen, window, other),
{
}

/// A coordinate on the way from `from` to `target`, after `i` steps.
pub open spec fn on_the_way(from: int, target: int, i: int) -> int {
    from + quotient((target - from) * i, STEPS as int)
}

/// The way is short enough to be computed with.
pub open spec fn slidable(from: Position, target: Position) -> bool {
    &&& fits((target.x - from.x) * STEPS)
    &&& fits((target.y - from.y) * STEPS)
}

proof fn lemma_on_the_way(from: int, target: int, i: int)
    requires
        0 <= i <= STEPS,
        fits((target - from) * STEPS),
    ensures
        fits((target - from) * i),
        smaller(from, target) <= on_the_way(from, target, i) <= larger(from, target),
        i == STEPS ==> on_the_way(from, target, i) == target,
{
    let d = target - from;
    assert(d >= 0 ==> 0 <= d * i <= d * 10) by (nonlinear_arith)
        requires
            0 <= i <= 10,
    ;
    assert(d <= 0 ==> d * 10 <= d * i <= 0) by (nonlinear_arith)
        requires
            0 <= i <= 10,
    ;
}

fn step_coordinate(from: i32, target: i32, i: i32) -> (r: i32)
    requires
        1 <= i <= STEPS,
        fits((target - from) * STEPS),
    ensures
        r == on_the_way(from as int, target as int, i as int),
{
    proof {
        lemma_on_the_way(from as int, target as int, i as int);
    }
    from + (target - from) * i / STEPS
}

/// The positions that a window takes one after the other as it slides to its target.
pub fn animate(from: Position, target: Position) -> (r: Vec<Position>)
    requires
        slidable(from, target),
    ensures
        r.len() == STEPS,
        forall|k: int|
            0 <= k < r.len() ==> (#[trigger] r[k]).x == on_the_way(
                from.x as int,
                target.x as int,
                k + 1,
            ) && r[k].y == on_the_way(from.y as int, target.y as int, k + 1),
{
    let mut places: Vec<Position> = Vec::new();
    let mut i: i32 = 0;
    while i < STEPS
        invariant
            0 <= i <= STEPS,
            places.len() == i,
            slidable(from, target),
            forall|k: int|
                0 <= k < places.len() ==> (#[trigger] places[k]).x == on_the_way(
                    from.x as int,
                    target.x as int,
                    k + 1,
                ) && places[k].y == on_the_way(from.y as int, target.y as int, k + 1),
        decreases STEPS - i,
    {
        i = i + 1;
        places.push(
            Position {
                x: step_coordinate(from.x, target.x, i),
                y: step_coordinate(from.y, target.y, i),
            },
        );
    }
    places
}

/// A slide ends at its target and stays between its ends on the way.
pub proof fn law_slide_arrives(from: Position, target: Position, i: int)
    requires
        slidable(from, target),
        1 <= i <= STEPS,
    ensures
        on_the_way(from.x as int, target.x as int, STEPS as int) == target.x,
        on_the_way(from.y as int, target.y as int, STEPS as int) == target.y,
        smaller(from.x as int, target.x as int) <= on_the_way(from.x as int, target.x as int, i)
            <= larger(from.x as int, target.x as int),
        smaller(from.y as int, target.y as int) <= on_the_way(from.y as int, target.y as int, i)
            <= larger(from.y as int, target.y as int),
{
    lemma_on_the_way(from.x as int, target.x as int, i);
    lemma_on_the_way(from.y as int, target.y as int, i);
    lemma_on_the_way(from.x as int, target.x as int, STEPS as int);
    lemma_on_the_way(from.y as int, target.y as int, STEPS as int);
}

/// Whether the hiding place can be computed.
pub fn is_measurable(screen: Area, window: Area) -> (r: bool)
    ensures
        r == measurable(screen, window),
{
    let mw: i64 = screen.width as i32 as i64;
    let mh: i64 = screen.height as i32 as i64;
    let ww: i64 = window.width as i32 as i64;
    let wh: i64 = window.height as i32 as i64;
    if ww >= mw || wh >= mh {
        return true;
    }
    let (mx, my): (i64, i64) = (screen.x as i64, screen.y as i64);
    let (wx, wy): (i64, i64) = (window.x as i64, window.y as i64);
    let left: i64 = wx - mx;
    let right: i64 = (mx + mw) - (wx + ww);
    let top: i64 = wy - my;
    if !(is_i32(left) && is_i32(mx + mw) && is_i32(wx + ww) && is_i32(right) && is_i32(top)) {
        return false;
    }
    let div: i64 = SLIVER_DIV as i64;
    let gap: i64 = SNAP_GAP as i64;
    if left <= right && left <= top {
        left > gap || (is_i32(mx - (ww - ww / div)) && is_i32(my + mh) && is_i32(my + mh - wh))
    } else if right <= top {
        right > gap || (is_i32(mx + mw - ww / div) && is_i32(my + mh) && is_i32(my + mh - wh))
    } else {
        top > gap || (is_i32(my - (wh - wh / div)) && is_i32(mx + mw - ww))
    }
}

fn is_i32(n: i64) -> (r: bool)
    ensures
        r == fits(n as int),
{
    -2147483648 <= n && n <= 2147483647
}

/// Whether a slide can be computed.
pub fn is_slidable(from: Position, target: Position) -> (r: bool)
    ensures
        r == slidable(from, target),
{
    let dx: i64 = target.x as i64 - from.x as i64;
    let dy: i64 = target.y as i64 - from.y as i64;
    is_i32(10 * dx) && is_i32(10 * dy)
}

/// What is known of the window between its events.
#[derive(Clone, Copy, PartialEq, Eq, Debug)]
pub struct EdgeHide {
    /// Whether the window hides at all.
    pub enabled: bool,
    /// The edge at which the window hides, and where it was before.
    pub hidden: Option<(Edge, Position)>,
    /// When the window last moved, in milliseconds.
    pub last_move: Option<u64>,
    /// Whether the window is sliding.
    pub animating: bool,
}

impl EdgeHide {
    /// The window at the start of a run.
    pub fn new() -> (r: EdgeHide)
        ensures
            r == (EdgeHide { enabled: true, hidden: None, last_move: None, animating: false }),
    {
        EdgeHide { enabled: true, hidden: None, last_move: None, animating: false }
    }

    /// The window has not moved since it was let go of.
    pub open spec fn at_rest(self, now: u64) -> bool {
        match self.last_move {
            Some(at) => now - at >= SETTLE_MS,
            None => false,
        }
    }

    /// The window may hide at `now`, if it is at an edge.
    pub open spec fn ready(self, now: u64) -> bool {
        self.enabled && !self.animating && self.hidden is None && self.at_rest(now)
    }

    /// The window after it slid out at an edge.
    pub open spec fn hid(self, edge: Edge, full: Position) -> EdgeHide {
        EdgeHide { hidden: Some((edge, full)), ..self }
    }

    /// The window as it begins or ends a slide.
    pub open spec fn sliding(self, animating: bool) -> EdgeHide {
        EdgeHide { animating, ..self }
    }

    /// The window out of hiding.
    pub open spec fn revealed(self) -> EdgeHide {
        EdgeHide { hidden: None, ..self }
    }

    /// The window after an event.
    pub open spec fn after(self, signal: WindowSignal, now: u64) -> EdgeHide {
        match signal {
            WindowSignal::Moved => self.moved(now),
            WindowSignal::PointerEntered => self.revealed(),
            WindowSignal::Other => self,
        }
    }

    /// What an event calls for.
    pub open spec fn task(self, signal: WindowSignal) -> WindowTask {
        match signal {
            WindowSignal::Moved => if self.animating {
                WindowTask::Nothing
            } else {
                WindowTask::Settle
            },
            WindowSignal::PointerEntered => match self.full_position() {
                Some(full) => WindowTask::Slide(full),
                None => WindowTask::Nothing,
            },
            WindowSignal::Other => WindowTask::Nothing,
        }
    }

    /// The window after it was moved, unless by its own slide.
    pub open spec fn moved(self, now: u64) -> EdgeHide {
        if self.animating {
            self
        } else {
            EdgeHide { last_move: Some(now), ..self }
        }
    }

    /// The window after hiding was switched, while it is there to slide or not.
    pub open spec fn switched(self, enabled: bool, present: bool) -> EdgeHide {
        EdgeHide {
            enabled,
            hidden: if !enabled && present {
                None
            } else {
                self.hidden
            },
            ..self
        }
    }

    /// Where the window slides when hiding is switched.
    pub open spec fn way_back(self, enabled: bool, present: bool) -> Option<Position> {
        if !enabled && present {
            self.full_position()
        } else {
            None
        }
    }

    /// Where a hidden window was before.
    pub open spec fn full_position(self) -> Option<Position> {
        match self.hidden {
            Some((_, full)) => Some(full),
            None => None,
        }
    }
}

/// Whether the window hides at edges.
pub fn get_edge_hide(state: &EdgeHide) -> (r: bool)
    ensures
        r == state.enabled,
{
    state.enabled
}

/// Switches hiding on or off. Gives the place to slide back to, if the window was hidden
/// when hiding was switched off, and is there to slide.
pub fn set_edge_hide(state: &mut EdgeHide, enabled: bool, present: bool) -> (r: Option<Position>)
    ensures
        *final(state) == old(state).switched(enabled, present),
        r == old(state).way_back(enabled, present),
{
    state.enabled = enabled;
    if !enabled && present {
        reveal_window(state)
    } else {
        None
    }
}

/// What happened to the window.
#[derive(Clone, Copy, PartialEq, Eq, Debug, Structural)]
pub enum WindowSignal {
    Moved,
    PointerEntered,
    Other,
}

/// What is to be done about it.
#[derive(Clone, Copy, PartialEq, Eq, Debug, Structural)]
pub enum WindowTask {
    Nothing,
    /// See after a while whether the window is at rest.
    Settle,
    /// Slide the window to this place.
    Slide(Position),
}

/// Takes an event of the window: a move starts the wait for it to come to rest, and the
/// pointer on a hidden window makes it slide back.
pub fn attach(state: &mut EdgeHide, signal: WindowSignal, now: u64) -> (r: WindowTask)
    ensures
        *final(state) == old(state).after(signal, now),
        r == old(state).task(signal),
{
    match signal {
        WindowSignal::Moved => {
            if on_moved(state, now) {
                WindowTask::Settle
            } else {
                WindowTask::Nothing
            }
        },
        WindowSignal::PointerEntered => match reveal_window(state) {
            Some(full) => WindowTask::Slide(full),
            None => WindowTask::Nothing,
        },
        WindowSignal::Other => WindowTask::Nothing,
    }
}

/// Notes a move, unless it is the window's own slide. Tells whether to see after a while
/// if the window is at rest.
pub fn on_moved(state: &mut EdgeHide, now: u64) -> (r: bool)
    ensures
        r == !old(state).animating,
        *final(state) == old(state).moved(now),
{
    if state.animating {
        return false;
    }
    state.last_move = Some(now);
    true
}

/// Whether the window may hide now.
pub fn is_ready(state: &EdgeHide, now: u64) -> (r: bool)
    ensures
        r == state.ready(now),
{
    let settled: bool = match state.last_move {
        Some(at) => at <= now && now - at >= SETTLE_MS,
        None => false,
    };
    !(state.animating || state.hidden.is_some() || !settled || !state.enabled)
}

/// Takes the window out of hiding. Gives the place to slide back to, if it was hidden.
pub fn reveal_window(state: &mut EdgeHide) -> (r: Option<Position>)
    ensures
        r == old(state).full_position(),
        *final(state) == old(state).revealed(),
{
    match state.hidden {
        Some((_, full)) => {
            state.hidden = None;
            Some(full)
        },
        None => None,
    }
}

/// Notes that the window begins or ends a slide.
pub fn set_animating(state: &mut EdgeHide, animating: bool)
    ensures
        *final(state) == old(state).sliding(animating),
{
    state.animating = animating;
}

/// Notes that the window has slid out at an edge, from the place `full`.
pub fn set_hidden(state: &mut EdgeHide, edge: Edge, full: Position)
    ensures
        *final(state) == old(state).hid(edge, full),
{
    state.hidden = Some((edge, full));
}

/// A window does not hide while it is hidden, while it slides, while it is being moved or
/// while hiding is switched off.
pub proof fn law_when_not_to_hide(state: EdgeHide, now: u64)
    ensures
        state.hidden is Some ==> !state.ready(now),
        state.animating ==> !state.ready(now),
        !state.enabled ==> !state.ready(now),
        (state.last_move matches Some(at) && now < at + SETTLE_MS) ==> !state.ready(now),
        state.last_move is None ==> !state.ready(now),
{
}

/// A window that hides and is taken out of hiding goes back to where it was, and is then
/// as it was before, out of hiding.
pub proof fn law_reveal_undoes_hiding(state: EdgeHide, edge: Edge, full: Position)
    ensures
        state.hid(edge, full).full_position() == Some(full),
        state.hid(edge, full).revealed() == state.revealed(),
        state.revealed().full_position() is None,
        state.hidden is None ==> state.hid(edge, full).revealed() == state,
{
}

/// A window that lies within its screen along the edge where it hides keeps its coordinate
/// along that edge; one that reaches over an end of the edge is moved just within it.
pub proof fn law_hides_at_its_own_height(screen: Area, window: Area, edge: Edge)
    requires
        hiding_edge(screen, window) == Some(edge),
    ensures
        edge != Edge::Top && screen.y <= window.y && window.y + window.h() <= screen.y + screen.h()
            ==> hidden_y(screen, window, edge) == window.y,
        edge != Edge::Top && window.y < screen.y ==> hidden_y(screen, window, edge) == screen.y,
        edge != Edge::Top && window.y + window.h() > screen.y + screen.h() ==> hidden_y(
            screen,
            window,
            edge,
        ) + window.h() == screen.y + screen.h(),
        edge == Edge::Top && screen.x <= window.x && window.x + window.w() <= screen.x + screen.w()
            ==> hidden_x(screen, window, edge) == window.x,
        edge == Edge::Top && window.x < screen.x ==> hidden_x(screen, window, edge) == screen.x,
        edge == Edge::Top && window.x + window.w() > screen.x + screen.w() ==> hidden_x(
            screen,
            window,
            edge,
        ) + window.w() == screen.x + screen.w(),
{
}

/// The sizes that count are those of the window and the screen, as long as they are
/// numbers of 31 bits; and the gaps are the distances between their edges.
pub proof fn law_gaps(screen: Area, window: Area)
    requires
        screen.width <= i32::MAX,
        window.width <= i32::MAX,
        window.height <= i32::MAX,
    ensures
        window.w() == window.width,
        window.h() == window.height,
        gap_left(screen, window) == window.x - screen.x,
        gap_right(screen, window) == (screen.x + screen.width) - (window.x + window.width),
        gap_top(screen, window) == window.y - screen.y,
        gap_at(screen, window, Edge::Left) == window.x - screen.x,
        gap_at(screen, window, Edge::Right) == (screen.x + screen.width) - (window.x
            + window.width),
        gap_at(screen, window, Edge::Top) == window.y - screen.y,
{
}

/// Of edges equally near, left comes before right, and right before top; and a window
/// hides only within eight pixels of its edge, and only if smaller than its screen.
pub proof fn law_order_of_edges(screen: Area, window: Area, edge: Edge)
    requires
        hiding_edge(screen, window) == Some(edge),
    ensures
        gap_at(screen, window, edge) <= 8,
        edge == Edge::Right ==> gap_right(screen, window) < gap_left(screen, window),
        edge == Edge::Top ==> gap_top(screen, window) < gap_left(screen, window) && gap_top(
            screen,
            window,
        ) < gap_right(screen, window),
        window.w() < screen.w() && window.h() < screen.h(),
{
}

/// A hidden window lies beyond its edge but for a quarter of its size, rounded down: at
/// the left and the top it is moved out by the rest, at the right by the rest too.
pub proof fn law_how_far_out(screen: Area, window: Area, edge: Edge, quarter: int)
    requires
        hiding_edge(screen, window) == Some(edge),
        window.width <= i32::MAX && window.height <= i32::MAX && screen.width <= i32::MAX,
        edge != Edge::Top ==> 4 * quarter <= window.width < 4 * quarter + 4,
        edge == Edge::Top ==> 4 * quarter <= window.height < 4 * quarter + 4,
    ensures
        edge == Edge::Left ==> hidden_x(screen, window, edge) == screen.x - (window.width
            - quarter),
        edge == Edge::Right ==> hidden_x(screen, window, edge) == screen.x + screen.width
            - quarter,
        edge == Edge::Top ==> hidden_y(screen, window, edge) == screen.y - (window.height
            - quarter),
{
}

/// After `i` of ten steps a window is `i` tenths of the way along, rounded toward where it
/// came from.
pub proof fn law_steps_of_a_slide(from: int, target: int, i: int)
    requires
        0 <= i <= 10,
    ensures
        target >= from ==> 0 <= (target - from) * i - 10 * (on_the_way(from, target, i) - from)
            < 10,
        target <= from ==> 0 <= 10 * (on_the_way(from, target, i) - from) - (target - from) * i
            < 10,
{
    let d = target - from;
    assert(d >= 0 ==> d * i >= 0) by (nonlinear_arith)
        requires
            0 <= i <= 10,
    ;
    assert(d <= 0 ==> d * i <= 0) by (nonlinear_arith)
        requires
            0 <= i <= 10,
    ;
}

/// On any desktop of ordinary size a hiding place can be computed, and so can a slide of
/// ordinary length.
pub proof fn law_ordinary_desktops(screen: Area, window: Area, from: Position, target: Position)
    requires
        -100_000_000 <= screen.x <= 100_000_000 && -100_000_000 <= screen.y <= 100_000_000,
        -100_000_000 <= window.x <= 100_000_000 && -100_000_000 <= window.y <= 100_000_000,
        screen.width <= 100_000_000 && screen.height <= 100_000_000,
        window.width <= 100_000_000 && window.height <= 100_000_000,
        -100_000_000 <= from.x <= 100_000_000 && -100_000_000 <= from.y <= 100_000_000,
        -100_000_000 <= target.x <= 100_000_000 && -100_000_000 <= target.y <= 100_000_000,
    ensures
        measurable(screen, window),
        slidable(from, target),
{
}

/// What the events of the window do: a move is noted with its time and calls for a look
/// later, unless the window moves by itself; the pointer takes a hidden window back to
/// where it was, and does nothing to any other; and nothing else does anything.
pub proof fn law_window_events(state: EdgeHide, edge: Edge, full: Position, now: u64)
    ensures
        state.animating ==> state.after(WindowSignal::Moved, now) == state && state.task(
            WindowSignal::Moved,
        ) == WindowTask::Nothing,
        !state.animating ==> state.after(WindowSignal::Moved, now) == (EdgeHide {
            last_move: Some(now),
            ..state
        }) && state.task(WindowSignal::Moved) == WindowTask::Settle,
        state.hidden == Some((edge, full)) ==> state.task(WindowSignal::PointerEntered)
            == WindowTask::Slide(full) && state.after(WindowSignal::PointerEntered, now) == (
        EdgeHide { hidden: None, ..state }),
        state.hidden is None ==> state.task(WindowSignal::PointerEntered) == WindowTask::Nothing
            && state.after(WindowSignal::PointerEntered, now) == state,
        state.after(WindowSignal::Other, now) == state,
        state.task(WindowSignal::Other) == WindowTask::Nothing,
{
}

/// A window hides exactly if hiding is on, it neither slides nor hides already, and its
/// last move is at least 350 milliseconds ago.
pub proof fn law_when_to_hide(state: EdgeHide, now: u64)
    ensures
        state.ready(now) <==> state.enabled && !state.animating && state.hidden is None && (
        state.last_move matches Some(at) && now - at >= 350),
{
}

/// Switching hiding on or off takes effect and changes nothing else, but that a hidden
/// window that is there comes back to where it was when hiding is switched off.
pub proof fn law_switching_hiding(
    state: EdgeHide,
    enabled: bool,
    present: bool,
    edge: Edge,
    full: Position,
)
    ensures
        state.switched(enabled, present).enabled == enabled,
        state.switched(enabled, present).last_move == state.last_move,
        state.switched(enabled, present).animating == state.animating,
        enabled || !present ==> state.way_back(enabled, present) is None && state.switched(
            enabled,
            present,
        ).hidden == state.hidden,
        !enabled && present ==> state.switched(enabled, present).hidden is None,
        !enabled && present && state.hidden == Some((edge, full)) ==> state.way_back(
            enabled,
            present,
        ) == Some(full),
        state.hidden is None ==> state.way_back(enabled, present) is None,
{
}

/// A slide that begins and ends leaves the window as it was, and while it lasts the window
/// takes no move for its user's.
pub proof fn law_slides(state: EdgeHide, edge: Edge, full: Position, now: u64)
    ensures
        state.sliding(true).animating && !state.sliding(false).animating,
        !state.animating ==> state.sliding(true).sliding(false) == state,
        state.sliding(true).after(WindowSignal::Moved, now) == state.sliding(true),
        state.sliding(true).hidden == state.hidden && state.sliding(true).enabled == state.enabled
            && state.sliding(true).last_move == state.last_move,
        state.hid(edge, full).hidden == Some((edge, full)) && state.hid(edge, full).enabled
            == state.enabled && state.hid(edge, full).animating == state.animating && state.hid(
            edge,
            full,
        ).last_move == state.last_move,
{
}

} // verus!
