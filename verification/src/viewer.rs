//! The decisions of the terminal viewer: which key does what to the panes,
//! and which link a mouse click lands on.
//!
//! The viewer shows one or more document panes, split side by side or one
//! above the other, with a focused pane that receives the scroll keys. A
//! click is resolved against what was last drawn: the run of link-styled
//! cells around the clicked cell, matched by its text against the links the
//! clicked pane's document holds.

use crate::text::{string_of, trim, trim_chars};
use crate::view::{half_step, page_step, LinkSpan, MarkdownViewState};
use vstd::prelude::*;

verus! {

/// How the panes are laid out.
#[derive(Debug, Clone, Copy, PartialEq, Eq)]
pub enum Orientation {
    /// Side by side.
    Horizontal,
    /// One above the other.
    Vertical,
}

/// A key press, as far as the viewer tells keys apart.
#[derive(Debug, Clone, Copy, PartialEq, Eq)]
pub enum Key {
    Char(char),
    Esc,
    Tab,
    BackTab,
    Up,
    Down,
    PageUp,
    PageDown,
    Home,
    End,
    Other,
}

/// What a key press asks of the viewer.
#[derive(Debug, Clone, Copy, PartialEq, Eq)]
pub enum Action {
    Quit,
    FocusNext,
    FocusPrev,
    ToggleSplit,
    ScrollBy(i32),
    HalfPage(bool),
    Page(bool),
    Top,
    Bottom,
    Nothing,
}

/// The action bound to `key`, with Control held when `ctrl`: `q`, Esc and
/// Control-`c` quit; Tab and Shift-Tab move the focus; `o` toggles the
/// split; `j`/Down and `k`/Up scroll a row; Control-`d`/`u` half a page;
/// Space/Page Down and Page Up a page; `g`/Home and `G`/End jump to the
/// top and the bottom.
pub open spec fn action_for(key: Key, ctrl: bool) -> Action {
    match key {
        Key::Char(c) => if c == 'q' {
            Action::Quit
        } else if c == 'c' && ctrl {
            Action::Quit
        } else if c == 'o' {
            Action::ToggleSplit
        } else if c == 'j' {
            Action::ScrollBy(1)
        } else if c == 'k' {
            Action::ScrollBy(-1i32)
        } else if c == 'd' && ctrl {
            Action::HalfPage(true)
        } else if c == 'u' && ctrl {
            Action::HalfPage(false)
        } else if c == ' ' {
            Action::Page(true)
        } else if c == 'g' {
            Action::Top
        } else if c == 'G' {
            Action::Bottom
        } else {
            Action::Nothing
        },
        Key::Esc => Action::Quit,
        Key::Tab => Action::FocusNext,
        Key::BackTab => Action::FocusPrev,
        Key::Down => Action::ScrollBy(1),
        Key::Up => Action::ScrollBy(-1i32),
        Key::PageDown => Action::Page(true),
        Key::PageUp => Action::Page(false),
        Key::Home => Action::Top,
        Key::End => Action::Bottom,
        Key::Other => Action::Nothing,
    }
}

/// The action bound to `key`.
pub fn key_action(key: Key, ctrl: bool) -> (a: Action)
    ensures
        a == action_for(key, ctrl),
{
    match key {
        Key::Char('q') | Key::Esc => Action::Quit,
        Key::Char('c') if ctrl => Action::Quit,
        Key::Tab => Action::FocusNext,
        Key::BackTab => Action::FocusPrev,
        Key::Char('o') => Action::ToggleSplit,
        Key::Char('j') | Key::Down => Action::ScrollBy(1),
        Key::Char('k') | Key::Up => Action::ScrollBy(-1),
        Key::Char('d') if ctrl => Action::HalfPage(true),
        Key::Char('u') if ctrl => Action::HalfPage(false),
        Key::PageDown | Key::Char(' ') => Action::Page(true),
        Key::PageUp => Action::Page(false),
        Key::Char('g') | Key::Home => Action::Top,
        Key::Char('G') | Key::End => Action::Bottom,
        _ => Action::Nothing,
    }
}

/// The offset a scroll action leaves a pane at, from state `s`; other
/// actions leave it where it is.
pub open spec fn scrolled_offset(s: MarkdownViewState, a: Action) -> nat {
    match a {
        Action::ScrollBy(d) => s.clamped(s.offset() + d),
        Action::HalfPage(down) => s.clamped(
            if down {
                s.offset() + half_step(s.height())
            } else {
                s.offset() - half_step(s.height())
            },
        ),
        Action::Page(down) => s.clamped(
            if down {
                s.offset() + page_step(s.height())
            } else {
                s.offset() - page_step(s.height())
            },
        ),
        Action::Top => 0,
        Action::Bottom => s.max_offset(),
        _ => s.offset(),
    }
}

/// A rectangle of terminal cells.
#[derive(Debug, Clone, Copy, PartialEq, Eq)]
pub struct Rect {
    pub x: u16,
    pub y: u16,
    pub width: u16,
    pub height: u16,
}

/// Whether cell `(col, row)` lies within `area`.
pub open spec fn contains(area: Rect, col: u16, row: u16) -> bool {
    area.x <= col < area.x + area.width && area.y <= row < area.y + area.height
}

/// Whether terminal cell `(col, row)` falls within `area`.
pub fn rect_contains(area: Rect, col: u16, row: u16) -> (b: bool)
    requires
        area.x + area.width <= u16::MAX,
        area.y + area.height <= u16::MAX,
    ensures
        b == contains(area, col, row),
{
    col >= area.x && col < area.x + area.width && row >= area.y && row < area.y + area.height
}

/// A drawn cell: its symbol, and whether it is drawn in the link style
/// (blue and underlined, which nothing but link text uses).
#[derive(Debug, Clone, PartialEq)]
pub struct Cell {
    pub symbol: String,
    pub link_style: bool,
}

/// The first pane, from `i` on, whose area holds `(col, row)`.
pub open spec fn pane_from(areas: Seq<Rect>, i: int, col: u16, row: u16) -> Option<int>
    decreases areas.len() - i,
{
    if i < 0 || i >= areas.len() {
        None
    } else if contains(areas[i], col, row) {
        Some(i)
    } else {
        pane_from(areas, i + 1, col, row)
    }
}

/// Leftmost cell of the link-styled run through `col`, not left of `lo`.
pub open spec fn run_start(cells: Seq<Cell>, lo: int, col: int) -> int
    decreases col - lo,
{
    if col > lo && cells[col - 1].link_style {
        run_start(cells, lo, col - 1)
    } else {
        col
    }
}

/// Rightmost cell of the link-styled run through `col`, left of `hi`.
pub open spec fn run_end(cells: Seq<Cell>, hi: int, col: int) -> int
    decreases hi - col,
{
    if col + 1 < hi && cells[col + 1].link_style {
        run_end(cells, hi, col + 1)
    } else {
        col
    }
}

/// The symbols of cells `[l, r)`, joined.
pub open spec fn joined(cells: Seq<Cell>, l: int, r: int) -> Seq<char>
    decreases r - l,
{
    if r <= l {
        seq![]
    } else {
        joined(cells, l, r - 1) + cells[r - 1].symbol@
    }
}

/// The target of the first link whose text is `text`.
pub open spec fn first_href(links: Seq<LinkSpan>, text: Seq<char>) -> Option<Seq<char>>
    decreases links.len(),
{
    if links.len() == 0 {
        None
    } else if links[0].text@ == text {
        Some(links[0].href@)
    } else {
        first_href(links.drop_first(), text)
    }
}

/// The link under a click at `(col, row)`, given the drawn `cells` of that
/// row: in the first pane whose area holds the click, when the clicked cell
/// is link-styled, the run of link-styled cells around it (within the
/// pane), trimmed, matched against that pane's links in order.
pub open spec fn link_under(
    areas: Seq<Rect>,
    links: Seq<Vec<LinkSpan>>,
    cells: Seq<Cell>,
    col: u16,
    row: u16,
) -> Option<Seq<char>> {
    match pane_from(areas, 0, col, row) {
        None => None,
        Some(p) => {
            let area = areas[p];
            if !cells[col as int].link_style {
                None
            } else {
                let l = run_start(cells, area.x as int, col as int);
                let r = run_end(cells, area.x + area.width, col as int);
                first_href(links[p]@, trim(joined(cells, l, r + 1)))
            }
        },
    }
}

/// The viewer's panes: each one's scroll state, links and last drawn
/// content area, with the focused pane, the split and whether to quit.
pub struct Viewer {
    states: Vec<MarkdownViewState>,
    links: Vec<Vec<LinkSpan>>,
    areas: Vec<Rect>,
    focus: usize,
    orientation: Orientation,
    quit: bool,
}

impl Viewer {
    /// One entry per pane, at least one pane, the focus on one of them,
    /// every drawn area within the screen's coordinates.
    pub closed spec fn wf(&self) -> bool {
        &&& self.states@.len() >= 1
        &&& self.links@.len() == self.states@.len()
        &&& self.areas@.len() == self.states@.len()
        &&& self.focus < self.states@.len()
        &&& forall|i: int|
            0 <= i < self.areas@.len() ==> #[trigger] self.areas@[i].x + self.areas@[i].width
                <= u16::MAX && self.areas@[i].y + self.areas@[i].height <= u16::MAX
    }

    /// The scroll states of the panes.
    pub closed spec fn pane_states(&self) -> Seq<MarkdownViewState> {
        self.states@
    }

    /// The links of each pane's document.
    pub closed spec fn pane_links(&self) -> Seq<Vec<LinkSpan>> {
        self.links@
    }

    /// The content area of each pane at the last draw.
    pub closed spec fn pane_areas(&self) -> Seq<Rect> {
        self.areas@
    }

    /// The focused pane.
    pub closed spec fn focused(&self) -> nat {
        self.focus as nat
    }

    /// The split.
    pub closed spec fn split(&self) -> Orientation {
        self.orientation
    }

    /// Whether the user asked to quit.
    pub closed spec fn quitting(&self) -> bool {
        self.quit
    }

    /// A viewer over panes with these scroll `states` and `links`; with no
    /// pane, one empty pane. Side by side, the first pane focused, no area
    /// drawn yet.
    pub fn new(states: Vec<MarkdownViewState>, links: Vec<Vec<LinkSpan>>) -> (v: Viewer)
        requires
            links@.len() == states@.len(),
        ensures
            v.wf(),
            states@.len() > 0 ==> v.pane_states() == states@ && v.pane_links() == links@,
            states@.len() == 0 ==> v.pane_states().len() == 1 && v.pane_states()[0].rows() == 0
                && v.pane_states()[0].offset() == 0 && v.pane_links().len() == 1
                && v.pane_links()[0]@.len() == 0,
            v.pane_areas() == Seq::new(v.pane_states().len(), |i: int| Rect::default_spec()),
            v.focused() == 0,
            v.split() == Orientation::Horizontal,
            !v.quitting(),
    {
        let mut states = states;
        let mut links = links;
        if states.len() == 0 {
            states.push(MarkdownViewState::new(0));
            links.push(Vec::new());
        }
        let mut areas: Vec<Rect> = Vec::new();
        while areas.len() < states.len()
            invariant
                areas@.len() <= states@.len(),
                forall|i: int| 0 <= i < areas@.len() ==> #[trigger] areas@[i] == Rect::default_spec(),
            decreases states.len() - areas.len(),
        {
            areas.push(Rect { x: 0, y: 0, width: 0, height: 0 });
        }
        assert(areas@ =~= Seq::new(states@.len(), |i: int| Rect::default_spec()));
        Viewer { states, links, areas, focus: 0, orientation: Orientation::Horizontal, quit: false }
    }

    /// The number of panes.
    pub fn pane_count(&self) -> (n: usize)
        requires
            self.wf(),
        ensures
            n == self.pane_states().len(),
    {
        self.states.len()
    }

    /// The focused pane.
    pub fn focus(&self) -> (i: usize)
        ensures
            i == self.focused(),
    {
        self.focus
    }

    /// The split.
    pub fn orientation(&self) -> (o: Orientation)
        ensures
            o == self.split(),
    {
        self.orientation
    }

    /// Whether the user asked to quit.
    pub fn quit_requested(&self) -> (b: bool)
        ensures
            b == self.quitting(),
    {
        self.quit
    }

    /// The scroll state of pane `i`.
    pub fn state(&self, i: usize) -> (s: &MarkdownViewState)
        requires
            i < self.pane_states().len(),
        ensures
            *s == self.pane_states()[i as int],
    {
        &self.states[i]
    }

    /// Records the content area pane `i` was drawn in.
    pub fn set_area(&mut self, i: usize, area: Rect)
        requires
            old(self).wf(),
            i < old(self).pane_states().len(),
            area.x + area.width <= u16::MAX,
            area.y + area.height <= u16::MAX,
        ensures
            final(self).wf(),
            final(self).pane_areas() == old(self).pane_areas().update(i as int, area),
            final(self).pane_states() == old(self).pane_states(),
            final(self).pane_links() == old(self).pane_links(),
            final(self).focused() == old(self).focused(),
            final(self).split() == old(self).split(),
            final(self).quitting() == old(self).quitting(),
    {
        self.areas.set(i, area);
    }

    /// Replaces the links of pane `i` after its document is rendered anew.
    pub fn set_links(&mut self, i: usize, links: Vec<LinkSpan>)
        requires
            old(self).wf(),
            i < old(self).pane_states().len(),
        ensures
            final(self).wf(),
            final(self).pane_links() == old(self).pane_links().update(i as int, links),
            final(self).pane_areas() == old(self).pane_areas(),
            final(self).pane_states() == old(self).pane_states(),
            final(self).focused() == old(self).focused(),
            final(self).split() == old(self).split(),
            final(self).quitting() == old(self).quitting(),
    {
        self.links.set(i, links);
    }

    /// The content area pane `i` was last drawn in.
    pub fn area(&self, i: usize) -> (a: Rect)
        requires
            i < self.pane_areas().len(),
        ensures
            a == self.pane_areas()[i as int],
    {
        self.areas[i]
    }

    /// Records pane `i`'s new line count after its document is rendered
    /// anew (see [`MarkdownViewState::set_line_count`]).
    pub fn set_line_count(&mut self, i: usize, line_count: usize)
        requires
            old(self).wf(),
            i < old(self).pane_states().len(),
        ensures
            final(self).wf(),
            final(self).pane_states().len() == old(self).pane_states().len(),
            forall|j: int|
                0 <= j < old(self).pane_states().len() && j != i ==> #[trigger] final(self).pane_states()[j]
                    == old(self).pane_states()[j],
            final(self).pane_states()[i as int].in_range(),
            final(self).pane_states()[i as int].rows() == line_count,
            final(self).pane_states()[i as int].height() == old(self).pane_states()[i as int].height(),
            final(self).pane_states()[i as int].offset() == if old(self).pane_states()[i as int].offset()
                <= final(self).pane_states()[i as int].max_offset() {
                old(self).pane_states()[i as int].offset()
            } else {
                final(self).pane_states()[i as int].max_offset()
            },
            final(self).pane_links() == old(self).pane_links(),
            final(self).pane_areas() == old(self).pane_areas(),
            final(self).focused() == old(self).focused(),
            final(self).split() == old(self).split(),
            final(self).quitting() == old(self).quitting(),
    {
        self.states[i].set_line_count(line_count);
    }

    /// Records pane `i`'s viewport height and wrapped row count at a draw
    /// (see [`MarkdownViewState::sync_layout`]).
    pub fn sync_pane(&mut self, i: usize, height: u16, wrapped_rows: usize)
        requires
            old(self).wf(),
            i < old(self).pane_states().len(),
        ensures
            final(self).wf(),
            final(self).pane_states().len() == old(self).pane_states().len(),
            forall|j: int|
                0 <= j < old(self).pane_states().len() && j != i ==> #[trigger] final(self).pane_states()[j] == old(self).pane_states()[j],
            final(self).pane_states()[i as int].in_range(),
            final(self).pane_states()[i as int].height() == if height >= 1 {
                height as nat
            } else {
                1
            },
            final(self).pane_states()[i as int].rows() == wrapped_rows,
            final(self).pane_states()[i as int].offset() == if old(self).pane_states()[i as int].offset()
                <= final(self).pane_states()[i as int].max_offset() {
                old(self).pane_states()[i as int].offset()
            } else {
                final(self).pane_states()[i as int].max_offset()
            },
            final(self).pane_links() == old(self).pane_links(),
            final(self).pane_areas() == old(self).pane_areas(),
            final(self).focused() == old(self).focused(),
            final(self).split() == old(self).split(),
            final(self).quitting() == old(self).quitting(),
    {
        self.states[i].sync_layout(height, wrapped_rows);
    }

    /// Handles a key press: its action applies to the viewer, or to the
    /// focused pane's scroll state, which alone changes and stays in range.
    pub fn on_key(&mut self, key: Key, ctrl: bool)
        requires
            old(self).wf(),
        ensures
            final(self).wf(),
            final(self).pane_links() == old(self).pane_links(),
            final(self).pane_areas() == old(self).pane_areas(),
            ({
                let n = old(self).pane_states().len();
                let f = old(self).focused();
                let a = action_for(key, ctrl);
                &&& final(self).quitting() == (old(self).quitting() || a == Action::Quit)
                &&& final(self).focused() as int == match a {
                    Action::FocusNext => (f + 1) as int % (n as int),
                    Action::FocusPrev => (f + n - 1) as int % (n as int),
                    _ => f as int,
                }
                &&& final(self).split() == if a == Action::ToggleSplit {
                    toggled(old(self).split())
                } else {
                    old(self).split()
                }
                &&& final(self).pane_states().len() == n
                &&& forall|i: int|
                    0 <= i < n && i != f ==> #[trigger] final(self).pane_states()[i]
                        == old(self).pane_states()[i]
                &&& final(self).pane_states()[f as int].rows() == old(self).pane_states()[f as int].rows()
                &&& final(self).pane_states()[f as int].height() == old(self).pane_states()[f as int].height()
                &&& final(self).pane_states()[f as int].offset() == scrolled_offset(
                    old(self).pane_states()[f as int],
                    a,
                )
                &&& (a != Action::Quit && a != Action::FocusNext && a != Action::FocusPrev && a
                    != Action::ToggleSplit && a != Action::Nothing) ==> final(self).pane_states()[f as int].in_range()
            }),
    {
        let n = self.states.len();
        let f = self.focus;
        let a = key_action(key, ctrl);
        match a {
            Action::Quit => {
                self.quit = true;
            },
            Action::FocusNext => {
                self.focus = (f + 1) % n;
            },
            Action::FocusPrev => {
                self.focus = if f == 0 {
                    n - 1
                } else {
                    f - 1
                };
                assert(self.focus == (f + n - 1) % (n as int)) by (nonlinear_arith)
                    requires
                        f < n,
                        self.focus == if f == 0 {
                            n - 1
                        } else {
                            f - 1
                        },
                ;
            },
            Action::ToggleSplit => {
                self.orientation = match self.orientation {
                    Orientation::Horizontal => Orientation::Vertical,
                    Orientation::Vertical => Orientation::Horizontal,
                };
            },
            Action::ScrollBy(d) => {
                let _o = self.states[f].scroll();
                self.states[f].scroll_by(d);
            },
            Action::HalfPage(down) => {
                self.states[f].half_page(down);
            },
            Action::Page(down) => {
                self.states[f].page(down);
            },
            Action::Top => {
                self.states[f].scroll_to_top();
            },
            Action::Bottom => {
                self.states[f].scroll_to_bottom();
            },
            Action::Nothing => {},
        }
    }

    /// Resolves a click at `(col, row)` to the target of the link under it,
    /// given the drawn `cells` of that row.
    pub fn resolve_link_at(&self, cells: &Vec<Cell>, col: u16, row: u16) -> (r: Option<String>)
        requires
            self.wf(),
            forall|i: int|
                0 <= i < self.pane_areas().len() ==> #[trigger] self.pane_areas()[i].x
                    + self.pane_areas()[i].width <= cells@.len(),
        ensures
            r matches Some(h) ==> link_under(
                self.pane_areas(),
                self.pane_links(),
                cells@,
                col,
                row,
            ) == Some(h@),
            r is None ==> link_under(self.pane_areas(), self.pane_links(), cells@, col, row)
                is None,
    {
        let mut p: usize = 0;
        while p < self.areas.len()
            invariant
                self.wf(),
                p <= self.areas@.len(),
                pane_from(self.areas@, 0, col, row) == pane_from(self.areas@, p as int, col, row),
            ensures
                p <= self.areas@.len(),
                pane_from(self.areas@, 0, col, row) == pane_from(self.areas@, p as int, col, row),
                p < self.areas@.len() ==> contains(self.areas@[p as int], col, row),
            decreases self.areas.len() - p,
        {
            if rect_contains(self.areas[p], col, row) {
                break;
            }
            p = p + 1;
        }
        if p >= self.areas.len() {
            return None;
        }
        let area = self.areas[p];
        assert(self.pane_areas()[p as int].x + self.pane_areas()[p as int].width <= cells@.len());
        assert(pane_from(self.areas@, p as int, col, row) == Some(p as int));
        if !cells[col as usize].link_style {
            return None;
        }
        let mut left = col;
        while left > area.x && cells[(left - 1) as usize].link_style
            invariant
                area.x <= left <= col,
                col < area.x + area.width,
                area.x + area.width <= cells@.len(),
                run_start(cells@, area.x as int, col as int) == run_start(
                    cells@,
                    area.x as int,
                    left as int,
                ),
            decreases left - area.x,
        {
            left = left - 1;
        }
        assert(run_start(cells@, area.x as int, col as int) == left as int);
        let mut right = col;
        while (right as u32) + 1 < (area.x as u32) + (area.width as u32) && cells[(right + 1) as usize].link_style
            invariant
                col <= right,
                right < area.x + area.width,
                area.x + area.width <= cells@.len(),
                area.x + area.width <= u16::MAX,
                run_end(cells@, area.x + area.width, col as int) == run_end(
                    cells@,
                    area.x + area.width,
                    right as int,
                ),
            decreases area.x + area.width - right,
        {
            right = right + 1;
        }
        assert(run_end(cells@, area.x + area.width, col as int) == right as int);
        let mut text: Vec<char> = Vec::new();
        let mut x = left as usize;
        while x <= right as usize
            invariant
                left <= x <= right + 1,
                right < cells@.len(),
                text@ == joined(cells@, left as int, x as int),
            decreases right + 1 - x,
        {
            crate::text::push_str(&mut text, cells[x].symbol.as_str());
            x = x + 1;
        }
        let t = string_of(trim_chars(text.as_slice()).as_slice());
        let ghost tv = t@;
        let links = &self.links[p];
        assert(links@.skip(0) =~= links@);
        assert(tv == trim(joined(cells@, left as int, right + 1)));
        assert(first_href(links@, tv) == link_under(
            self.pane_areas(),
            self.pane_links(),
            cells@,
            col,
            row,
        ));
        let mut k: usize = 0;
        while k < links.len()
            invariant
                k <= links@.len(),
                first_href(links@, tv) == first_href(links@.skip(k as int), tv),
                tv == t@,
                first_href(links@, tv) == link_under(
                    self.pane_areas(),
                    self.pane_links(),
                    cells@,
                    col,
                    row,
                ),
            decreases links.len() - k,
        {
            proof {
                assert(links@.skip(k as int).drop_first() =~= links@.skip(k + 1));
                assert(links@.skip(k as int)[0] == links@[k as int]);
            }
            if links[k].text == t {
                return Some(links[k].href.clone());
            }
            k = k + 1;
        }
        None
    }
}

/// Moving the focus forward and then back returns it to the pane it was
/// on, for any number of panes.
pub proof fn law_focus_next_then_prev(f: int, n: int)
    requires
        0 <= f < n,
    ensures
        (((f + 1) % n) + n - 1) % n == f,
{
    if f + 1 < n {
        assert((f + 1) % n == f + 1) by (nonlinear_arith)
            requires
                0 <= f,
                f + 1 < n,
        ;
        assert((f + 1 + n - 1) % n == f) by (nonlinear_arith)
            requires
                0 <= f < n,
        ;
    } else {
        assert((f + 1) % n == 0) by (nonlinear_arith)
            requires
                f + 1 == n,
                n >= 1,
        ;
        assert((0 + n - 1) % n == n - 1) by (nonlinear_arith)
            requires
                n >= 1,
        ;
    }
}

/// Law: `j` and Down scroll the focused pane one row down, `k` and Up one
/// row up, with or without Ctrl, and each stops at its end of the range; so
/// within the range `j` then `k` returns to the starting row.
pub proof fn law_j_down_k_up(s: MarkdownViewState, ctrl: bool)
    requires
        s.in_range(),
    ensures
        scrolled_offset(s, action_for(Key::Char('j'), ctrl)) == scrolled_offset(s, action_for(Key::Down, ctrl)),
        scrolled_offset(s, action_for(Key::Char('k'), ctrl)) == scrolled_offset(s, action_for(Key::Up, ctrl)),
        s.offset() < s.max_offset() ==> scrolled_offset(s, action_for(Key::Char('j'), ctrl)) == s.offset() + 1,
        s.offset() == s.max_offset() ==> scrolled_offset(s, action_for(Key::Char('j'), ctrl)) == s.offset(),
        s.offset() > 0 ==> scrolled_offset(s, action_for(Key::Char('k'), ctrl)) == s.offset() - 1,
        s.offset() == 0 ==> scrolled_offset(s, action_for(Key::Char('k'), ctrl)) == 0,
{
}

/// Toggling the split twice restores it.
pub proof fn law_split_toggles_back(o: Orientation)
    ensures
        toggled(toggled(o)) == o,
{
}

/// The other split.
pub open spec fn toggled(o: Orientation) -> Orientation {
    match o {
        Orientation::Horizontal => Orientation::Vertical,
        Orientation::Vertical => Orientation::Horizontal,
    }
}

impl Rect {
    /// The empty rectangle at the origin.
    pub open spec fn default_spec() -> Rect {
        Rect { x: 0, y: 0, width: 0, height: 0 }
    }
}

} // verus!
