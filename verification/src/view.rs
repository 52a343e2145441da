//! Wrap-aware scrolling for the embeddable Markdown view.
//!
//! The view word-wraps to the viewport width, so scroll offsets count
//! visual (wrapped) rows. The row count of a logical line is computed here
//! from its graphemes, with the exact state machine of ratatui's word
//! wrapper (`Wrap { trim: false }`); [`MarkdownViewState`] holds the scroll
//! offset and keeps it within range whatever the viewport and the content.

use crate::parser::types::strings_model;
use crate::text::is_ws;
use ratatui::style::Style;
use ratatui::text::Span;
use unicode_width::{UnicodeWidthChar, UnicodeWidthStr};
use vstd::prelude::*;

verus! {

// ── Graphemes and display widths ───────────────────────────────────────────

/// The extended grapheme clusters of `s`, newlines left out, as ratatui
/// splits a span for layout.
pub uninterp spec fn graphemes(s: Seq<char>) -> Seq<Seq<char>>;

/// Display width of `s` in terminal columns, per `unicode-width`.
pub uninterp spec fn str_width(s: Seq<char>) -> nat;

/// Display width of `c`, per `unicode-width` (`None` for control characters).
pub uninterp spec fn char_width(c: char) -> Option<nat>;

/// Every character of `s` is printable ASCII (U+0020 to U+007E).
pub open spec fn printable_ascii(s: Seq<char>) -> bool {
    forall|i: int| 0 <= i < s.len() ==> 0x20 <= (#[trigger] s[i]) as u32 <= 0x7e
}

/// `s` cut into its characters, one text each.
pub open spec fn singles(s: Seq<char>) -> Seq<Seq<char>> {
    Seq::new(s.len(), |i: int| seq![s[i]])
}

/// Calls ratatui's `Span::styled_graphemes`, which splits the span text into
/// extended grapheme clusters and leaves out `"\n"`. Claims that the result
/// is the named function of the text and, for printable ASCII text, what
/// `unicode-segmentation` gives there (every such character is its own
/// cluster): one cluster per character.
#[verifier::external_body]
fn grapheme_symbols(s: &str) -> (r: Vec<String>)
    ensures
        strings_model(r@) == graphemes(s@),
        printable_ascii(s@) ==> strings_model(r@) == singles(s@),
{
    Span::raw(s).styled_graphemes(Style::default()).map(|g| g.symbol.to_string()).collect()
}

/// Calls `UnicodeWidthStr::width`. Claims that the result is the named
/// width of the text and, for printable ASCII text, what `unicode-width`
/// gives there (one column per character): its length.
#[verifier::external_body]
pub(crate) fn text_width(s: &str) -> (r: usize)
    ensures
        r as nat == str_width(s@),
        printable_ascii(s@) ==> r as nat == s@.len(),
{
    s.width()
}

/// Calls `UnicodeWidthChar::width`. Claims only that the result is the named
/// width of the character.
#[verifier::external_body]
fn char_display_width(c: char) -> (r: Option<usize>)
    ensures
        match char_width(c) {
            Some(w) => r matches Some(x) && x as nat == w,
            None => r is None,
        },
{
    c.width()
}

// ── The wrap predicate ─────────────────────────────────────────────────────

/// U+200B ZERO WIDTH SPACE.
pub const ZWSP: &'static str = "\u{200b}";

/// U+00A0 NO-BREAK SPACE.
pub const NBSP: &'static str = "\u{00a0}";

/// A grapheme a line may wrap at: a zero-width space does, a no-break space
/// does not, anything else when all of its characters are whitespace.
pub open spec fn wrap_ws(symbol: Seq<char>) -> bool {
    symbol == ZWSP@ || ((forall|i: int| 0 <= i < symbol.len() ==> is_ws(#[trigger] symbol[i]))
        && symbol != NBSP@)
}

/// ratatui's `StyledGrapheme::is_whitespace` on the grapheme `symbol`.
pub fn is_wrap_whitespace(symbol: &str) -> (b: bool)
    ensures
        b == wrap_ws(symbol@),
{
    let cs = crate::text::chars_of(symbol);
    let z = crate::text::chars_of(ZWSP);
    let nb = crate::text::chars_of(NBSP);
    let is_z = cs.len() == z.len() && crate::text::has_prefix(cs.as_slice(), z.as_slice());
    let is_nb = cs.len() == nb.len() && crate::text::has_prefix(cs.as_slice(), nb.as_slice());
    proof {
        if cs@.len() == z@.len() {
            assert(cs@.take(cs@.len() as int) =~= cs@);
        }
        if cs@.len() == nb@.len() {
            assert(cs@.take(cs@.len() as int) =~= cs@);
        }
    }
    let mut all_ws = true;
    let mut i: usize = 0;
    while i < cs.len()
        invariant
            i <= cs@.len(),
            all_ws == (forall|j: int| 0 <= j < i ==> is_ws(#[trigger] cs@[j])),
        decreases cs.len() - i,
    {
        if !crate::text::is_whitespace(cs[i]) {
            all_ws = false;
        }
        i = i + 1;
    }
    is_z || (all_ws && !is_nb)
}

// ── The word-wrap state machine ────────────────────────────────────────────

/// A grapheme as wrapping sees it: whether it is wrap whitespace, and its
/// display width.
pub type Cell = (bool, nat);

/// The cells of the graphemes `gs`.
pub open spec fn grapheme_cells(gs: Seq<Seq<char>>) -> Seq<Cell> {
    Seq::new(gs.len(), |i: int| (wrap_ws(gs[i]), str_width(gs[i])))
}

/// The cells of a line made of the spans `spans`: span boundaries are
/// invisible, the graphemes flow as one stream.
pub open spec fn line_cells(spans: Seq<Seq<char>>) -> Seq<Cell>
    decreases spans.len(),
{
    if spans.len() == 0 {
        seq![]
    } else {
        line_cells(spans.drop_last()) + grapheme_cells(graphemes(spans.last()))
    }
}

/// The word wrapper's state: rows emitted so far, the row being filled, the
/// word being accumulated, and the whitespace pending before it (kept per
/// grapheme, since an emitted row drops the leading pending whitespace that
/// still fits on it).
pub struct WrapState {
    pub rows: nat,
    pub row_empty: bool,
    pub row_width: nat,
    pub word_empty: bool,
    pub word_width: nat,
    pub ws_width: nat,
    pub pending: Seq<nat>,
    pub after_word: bool,
}

/// The state before the first grapheme of a line.
pub open spec fn wrap_start() -> WrapState {
    WrapState {
        rows: 0,
        row_empty: true,
        row_width: 0,
        word_empty: true,
        word_width: 0,
        ws_width: 0,
        pending: seq![],
        after_word: false,
    }
}

/// Drops from the front of `pending` the whitespace that fits in
/// `remaining` columns; returns what is left and its total width.
pub open spec fn drop_fitting(pending: Seq<nat>, ws: int, remaining: int) -> (Seq<nat>, int)
    decreases pending.len(),
{
    if pending.len() == 0 || pending[0] > remaining {
        (pending, ws)
    } else {
        drop_fitting(pending.drop_first(), ws - pending[0], remaining - pending[0])
    }
}

/// Appends a grapheme of width `w` to the pending whitespace or the word.
pub open spec fn wrap_add(s: WrapState, is_space: bool, w: nat) -> WrapState {
    if is_space {
        WrapState { ws_width: s.ws_width + w, pending: s.pending.push(w), after_word: false, ..s }
    } else {
        WrapState { word_width: s.word_width + w, word_empty: false, after_word: true, ..s }
    }
}

/// Commits the finished word, and the whitespace before it, to the row:
/// when whitespace follows a word, or when the word with its leading
/// whitespace and the new grapheme no longer fits an empty row.
pub open spec fn wrap_commit(s: WrapState, is_space: bool, w: nat, max: nat) -> WrapState {
    let word_found = s.after_word && is_space;
    let untrimmed_overflow = s.row_empty && s.word_width + s.ws_width + w > max;
    if word_found || untrimmed_overflow {
        WrapState {
            row_empty: if s.pending.len() > 0 || !s.word_empty {
                false
            } else {
                s.row_empty
            },
            row_width: s.row_width + s.ws_width + s.word_width,
            pending: seq![],
            word_empty: true,
            ws_width: 0,
            word_width: 0,
            ..s
        }
    } else {
        s
    }
}

/// Whether the row must be emitted before a grapheme of width `w`: it is
/// full, or the pending word has grown to the wrap width.
pub open spec fn wrap_breaks(s1: WrapState, w: nat, max: nat) -> bool {
    s1.row_width >= max || (w > 0 && s1.row_width + s1.ws_width + s1.word_width >= max)
}

/// Emits the row; the pending whitespace that would have fit at its end is
/// dropped.
pub open spec fn wrap_emit(s1: WrapState, max: nat) -> WrapState {
    let remaining = if s1.row_width <= max {
        max - s1.row_width
    } else {
        0
    };
    let (p2, ws2) = drop_fitting(s1.pending, s1.ws_width as int, remaining);
    WrapState { rows: s1.rows + 1, row_empty: true, row_width: 0, pending: p2, ws_width: ws2 as nat, ..s1 }
}

/// One grapheme of width `w` through the wrapper at `max` columns; wider
/// graphemes are ignored, and whitespace that triggers a break with no
/// whitespace left pending does not carry over.
pub open spec fn wrap_step(s: WrapState, is_space: bool, w: nat, max: nat) -> WrapState {
    if w > max {
        s
    } else {
        let s1 = wrap_commit(s, is_space, w, max);
        if wrap_breaks(s1, w, max) {
            let s2 = wrap_emit(s1, max);
            if is_space && s2.pending.len() == 0 {
                s2
            } else {
                wrap_add(s2, is_space, w)
            }
        } else {
            wrap_add(s1, is_space, w)
        }
    }
}

/// The state after the first `n` cells.
pub open spec fn wrap_run(cells: Seq<Cell>, n: int, max: nat) -> WrapState
    decreases n,
{
    if n <= 0 {
        wrap_start()
    } else {
        let s = wrap_run(cells, n - 1, max);
        wrap_step(s, cells[n - 1].0, cells[n - 1].1, max)
    }
}

/// The rows a line ends with: a line holding only pending whitespace first
/// emits an empty row, then anything left forms a last row; every line
/// takes at least one row.
pub open spec fn wrap_finish(s: WrapState) -> nat {
    let rows1 = if s.row_empty && s.word_empty && s.pending.len() > 0 {
        s.rows + 1
    } else {
        s.rows
    };
    let row_empty = if s.pending.len() > 0 || !s.word_empty {
        false
    } else {
        s.row_empty
    };
    let rows2 = if !row_empty {
        rows1 + 1
    } else {
        rows1
    };
    if rows2 == 0 {
        1
    } else {
        rows2
    }
}

/// Visual rows of a line with cells `cells` at `width` columns.
pub open spec fn line_rows(cells: Seq<Cell>, width: nat) -> nat {
    wrap_finish(wrap_run(cells, cells.len() as int, width))
}

/// `n`, or `usize::MAX` when `n` does not fit.
pub open spec fn sat(n: nat) -> nat {
    if n <= usize::MAX {
        n
    } else {
        usize::MAX as nat
    }
}

/// Total of `s`.
pub open spec fn seq_sum(s: Seq<nat>) -> nat
    decreases s.len(),
{
    if s.len() == 0 {
        0
    } else {
        s[0] + seq_sum(s.drop_first())
    }
}

proof fn lemma_seq_sum_push(s: Seq<nat>, w: nat)
    ensures
        seq_sum(s.push(w)) == seq_sum(s) + w,
    decreases s.len(),
{
    if s.len() > 0 {
        lemma_seq_sum_push(s.drop_first(), w);
        assert(s.push(w).drop_first() =~= s.drop_first().push(w));
        assert(s.push(w)[0] == s[0]);
    } else {
        assert(s.push(w).drop_first() =~= Seq::<nat>::empty());
        assert(seq_sum(Seq::<nat>::empty()) == 0);
        assert(s.push(w)[0] == w);
    }
}

proof fn lemma_drop_fitting(p: Seq<nat>, ws: int, remaining: int)
    requires
        ws == seq_sum(p),
    ensures
        drop_fitting(p, ws, remaining).1 == seq_sum(drop_fitting(p, ws, remaining).0),
        drop_fitting(p, ws, remaining).1 <= ws,
    decreases p.len(),
{
    if p.len() > 0 && p[0] <= remaining {
        lemma_drop_fitting(p.drop_first(), ws - p[0], remaining - p[0]);
    }
}

/// The executable word-wrapper state; widths in `u128` so that no sum of
/// widths of graphemes in memory can overflow.
struct Wrapper {
    rows: usize,
    row_empty: bool,
    row_width: u128,
    word_empty: bool,
    word_width: u128,
    ws_width: u128,
    pending: Vec<u128>,
    after_word: bool,
}

/// Model of a pending-whitespace vector.
spec fn widths_model(v: Seq<u128>) -> Seq<nat> {
    Seq::new(v.len(), |i: int| v[i] as nat)
}

spec fn wrapper_model(w: Wrapper) -> WrapState {
    WrapState {
        rows: w.rows as nat,
        row_empty: w.row_empty,
        row_width: w.row_width as nat,
        word_empty: w.word_empty,
        word_width: w.word_width as nat,
        ws_width: w.ws_width as nat,
        pending: widths_model(w.pending@),
        after_word: w.after_word,
    }
}

/// The wrapper's sums stay within what `n` graphemes of at most `65535`
/// columns can add up to.
spec fn wrapper_bounded(w: Wrapper, n: nat) -> bool {
    &&& w.rows <= n
    &&& w.row_width + w.ws_width + w.word_width <= n * 65535
    &&& w.ws_width as nat == seq_sum(widths_model(w.pending@))
}

/// Drops the leading pending whitespace that fits in `remaining` columns.
fn drop_fitting_exec(pending: &mut Vec<u128>, ws: &mut u128, remaining: u128)
    requires
        *old(ws) as nat == seq_sum(widths_model(old(pending)@)),
    ensures
        (widths_model(final(pending)@), *final(ws) as int) == drop_fitting(
            widths_model(old(pending)@),
            *old(ws) as int,
            remaining as int,
        ),
        *final(ws) as nat == seq_sum(widths_model(final(pending)@)),
        *final(ws) <= *old(ws),
{
    let ghost p0 = widths_model(pending@);
    let ghost ws0 = *ws as int;
    let mut rem = remaining;
    proof {
        lemma_drop_fitting(p0, ws0, remaining as int);
    }
    while pending.len() > 0 && pending[0] <= rem
        invariant
            *ws as nat == seq_sum(widths_model(pending@)),
            *ws <= ws0,
            drop_fitting(p0, ws0, remaining as int) == drop_fitting(
                widths_model(pending@),
                *ws as int,
                rem as int,
            ),
        decreases pending.len(),
    {
        let front = pending[0];
        let ghost pm = widths_model(pending@);
        assert(pm[0] == front as nat);
        assert(seq_sum(pm) == pm[0] + seq_sum(pm.drop_first()));
        *ws = *ws - front;
        rem = rem - front;
        pending.remove(0);
        assert(widths_model(pending@) =~= pm.drop_first());
    }
}

/// One grapheme through the executable wrapper.
fn wrap_step_exec(w: &mut Wrapper, is_space: bool, gw: usize, max: u128, Ghost(n): Ghost<nat>)
    requires
        max <= 65535,
        n < usize::MAX,
        wrapper_bounded(*old(w), n),
    ensures
        wrapper_model(*final(w)) == wrap_step(wrapper_model(*old(w)), is_space, gw as nat, max as nat),
        wrapper_bounded(*final(w), n + 1),
{
    let ghost s0 = wrapper_model(*w);
    if gw as u128 > max {
        return;
    }
    let gw = gw as u128;
    let word_found = w.after_word && is_space;
    let untrimmed_overflow = w.row_empty && w.word_width + w.ws_width + gw > max;
    if word_found || untrimmed_overflow {
        if w.pending.len() > 0 {
            w.row_empty = false;
        }
        w.row_width = w.row_width + w.ws_width;
        w.pending = Vec::new();
        if !w.word_empty {
            w.row_empty = false;
        }
        w.row_width = w.row_width + w.word_width;
        w.word_empty = true;
        w.ws_width = 0;
        w.word_width = 0;
    }
    assert(widths_model(w.pending@) =~= wrap_commit(s0, is_space, gw as nat, max as nat).pending);
    assert(wrapper_model(*w) == wrap_commit(s0, is_space, gw as nat, max as nat));
    let ghost s1 = wrapper_model(*w);
    let row_full = w.row_width >= max;
    let pending_word_overflow = gw > 0 && w.row_width + w.ws_width + w.word_width >= max;
    let mut skip = false;
    if row_full || pending_word_overflow {
        let remaining = if w.row_width <= max {
            max - w.row_width
        } else {
            0
        };
        w.rows = w.rows + 1;
        w.row_empty = true;
        w.row_width = 0;
        drop_fitting_exec(&mut w.pending, &mut w.ws_width, remaining);
        assert(wrapper_model(*w) == wrap_emit(s1, max as nat));
        if is_space && w.pending.len() == 0 {
            skip = true;
        }
    }
    if !skip {
        if is_space {
            w.ws_width = w.ws_width + gw;
            let ghost pb = widths_model(w.pending@);
            w.pending.push(gw);
            proof {
                lemma_seq_sum_push(pb, gw as nat);
            }
            assert(widths_model(w.pending@) =~= pb.push(gw as nat));
        } else {
            w.word_width = w.word_width + gw;
            w.word_empty = false;
        }
        w.after_word = !is_space;
    }
}

/// Visual rows of a line with cells `cells` at `width` columns (saturating
/// at `usize::MAX`, which no line in memory reaches).
fn cell_rows(cells: &Vec<(bool, usize)>, width: u16) -> (r: usize)
    ensures
        r as nat == sat(line_rows(cells_model(cells@), width as nat)),
{
    let max = width as u128;
    let ghost cm = cells_model(cells@);
    let mut w = Wrapper {
        rows: 0,
        row_empty: true,
        row_width: 0,
        word_empty: true,
        word_width: 0,
        ws_width: 0,
        pending: Vec::new(),
        after_word: false,
    };
    assert(widths_model(w.pending@) =~= Seq::<nat>::empty());
    assert(wrapper_model(w) =~= wrap_start());
    let mut i: usize = 0;
    while i < cells.len()
        invariant
            i <= cells@.len(),
            cm == cells_model(cells@),
            max == width as u128,
            wrapper_model(w) == wrap_run(cm, i as int, width as nat),
            wrapper_bounded(w, i as nat),
        decreases cells.len() - i,
    {
        let (is_space, gw) = cells[i];
        assert(cm[i as int] == (is_space, gw as nat));
        wrap_step_exec(&mut w, is_space, gw, max, Ghost(i as nat));
        i = i + 1;
    }
    let mut rows: u128 = w.rows as u128;
    if w.row_empty && w.word_empty && w.pending.len() > 0 {
        rows = rows + 1;
    }
    let mut row_empty = w.row_empty;
    if w.pending.len() > 0 || !w.word_empty {
        row_empty = false;
    }
    if !row_empty {
        rows = rows + 1;
    }
    if rows == 0 {
        rows = 1;
    }
    if rows > usize::MAX as u128 {
        usize::MAX
    } else {
        rows as usize
    }
}

/// Model of a vector of cells.
pub open spec fn cells_model(v: Seq<(bool, usize)>) -> Seq<Cell> {
    Seq::new(v.len(), |i: int| (v[i].0, v[i].1 as nat))
}

/// What the outside calls gave for printable ASCII text `t`: one cluster
/// per character, each one column wide.
pub open spec fn ascii_cells_known(t: Seq<char>) -> bool {
    &&& graphemes(t) == singles(t)
    &&& forall|i: int| 0 <= i < t.len() ==> str_width(#[trigger] singles(t)[i]) == 1
}

/// The cells of the line made of the spans `spans`.
fn span_cells(spans: &[String]) -> (r: Vec<(bool, usize)>)
    ensures
        cells_model(r@) == line_cells(strings_model(spans@)),
        forall|k: int|
            0 <= k < spans@.len() && printable_ascii(#[trigger] spans@[k]@) ==> ascii_cells_known(spans@[k]@),
{
    let mut out: Vec<(bool, usize)> = Vec::new();
    let mut k: usize = 0;
    let ghost sm = strings_model(spans@);
    assert(sm.take(0) =~= Seq::<Seq<char>>::empty());
    assert(cells_model(out@) =~= Seq::<Cell>::empty());
    while k < spans.len()
        invariant
            k <= spans@.len(),
            sm == strings_model(spans@),
            cells_model(out@) == line_cells(sm.take(k as int)),
            forall|kk: int|
                0 <= kk < k && printable_ascii(#[trigger] spans@[kk]@) ==> ascii_cells_known(spans@[kk]@),
        decreases spans.len() - k,
    {
        let gs = grapheme_symbols(spans[k].as_str());
        let ghost gm = graphemes(spans@[k as int]@);
        let ghost base = cells_model(out@);
        let mut j: usize = 0;
        assert(grapheme_cells(gm).take(0) =~= Seq::<Cell>::empty());
        assert(base + grapheme_cells(gm).take(0) =~= base);
        while j < gs.len()
            invariant
                j <= gs@.len(),
                strings_model(gs@) == gm,
                gm == graphemes(spans@[k as int]@),
                printable_ascii(spans@[k as int]@) ==> gm == singles(spans@[k as int]@),
                printable_ascii(spans@[k as int]@) ==> forall|jj: int|
                    0 <= jj < j ==> str_width(#[trigger] singles(spans@[k as int]@)[jj]) == 1,
                cells_model(out@) == base + grapheme_cells(gm).take(j as int),
            decreases gs.len() - j,
        {
            let g = gs[j].as_str();
            proof {
                if printable_ascii(spans@[k as int]@) {
                    let t = spans@[k as int]@;
                    assert(gs@[j as int]@ == gm[j as int]);
                    assert(g@ == seq![t[j as int]]);
                    assert(0x20 <= t[j as int] as u32 <= 0x7e);
                    assert(printable_ascii(g@));
                }
            }
            let c = (is_wrap_whitespace(g), text_width(g));
            let ghost before = out@;
            out.push(c);
            assert(gm[j as int] == gs@[j as int]@);
            assert(cells_model(out@) =~= cells_model(before).push((c.0, c.1 as nat)));
            assert(grapheme_cells(gm).take(j + 1) =~= grapheme_cells(gm).take(j as int).push(
                (c.0, c.1 as nat),
            ));
            assert(cells_model(out@) =~= base + grapheme_cells(gm).take(j + 1));
            j = j + 1;
        }
        assert(grapheme_cells(gm).take(gs@.len() as int) =~= grapheme_cells(gm));
        assert(printable_ascii(spans@[k as int]@) ==> ascii_cells_known(spans@[k as int]@));
        assert(sm.take(k + 1).drop_last() =~= sm.take(k as int));
        assert(sm.take(k + 1).last() == spans@[k as int]@);
        k = k + 1;
    }
    assert(sm.take(spans@.len() as int) =~= sm);
    out
}

/// `t` is one word of printable ASCII: at least one character, none of
/// them a space.
pub open spec fn ascii_word(t: Seq<char>) -> bool {
    t.len() >= 1 && forall|i: int| 0 <= i < t.len() ==> 0x21 <= (#[trigger] t[i]) as u32 <= 0x7e
}

/// Visual rows one logical line, made of the spans `spans`, occupies at
/// `width` columns; at least one row (saturating at `usize::MAX`). A line
/// that is one word of printable ASCII breaks every `width` columns: it
/// takes `ceil(n / width)` rows for its `n` characters.
pub fn wrapped_segments(spans: &[String], width: u16) -> (r: usize)
    ensures
        r as nat == sat(line_rows(line_cells(strings_model(spans@)), width as nat)),
        spans@.len() == 1 && ascii_word(spans@[0]@) && width >= 1 ==> (r - 1) * width < spans@[0]@.len()
            <= r * width,
{
    let cells = span_cells(spans);
    let n = cells.len();
    let r = cell_rows(&cells, width);
    proof {
        if spans@.len() == 1 && ascii_word(spans@[0]@) && width >= 1 {
            lemma_ascii_word_cells(strings_model(spans@));
            let cs = line_cells(strings_model(spans@));
            law_unbroken_run_rows(cs, width as nat);
            assert(line_rows(cs, width as nat) <= n) by (nonlinear_arith)
                requires
                    (line_rows(cs, width as nat) - 1) * width < cs.len(),
                    width >= 1,
                    cs.len() == n,
            ;
            assert(r == line_rows(cs, width as nat));
        }
    }
    r
}

/// The cells of a line that is one word `t` of printable ASCII, when the
/// outside calls gave what they give for such text: one non-whitespace
/// cell of width 1 per character.
proof fn lemma_ascii_word_cells(sm: Seq<Seq<char>>)
    requires
        sm.len() == 1,
        ascii_word(sm[0]),
        ascii_cells_known(sm[0]),
    ensures
        line_cells(sm).len() == sm[0].len(),
        forall|i: int| 0 <= i < sm[0].len() ==> #[trigger] line_cells(sm)[i] == (false, 1nat),
{
    let t = sm[0];
    assert(sm.drop_last() =~= Seq::<Seq<char>>::empty());
    assert(line_cells(sm.drop_last()) =~= Seq::<Cell>::empty());
    assert(line_cells(sm) =~= grapheme_cells(singles(t)));
    reveal_strlit("\u{200b}");
    reveal_strlit("\u{00a0}");
    assert forall|i: int| 0 <= i < t.len() implies #[trigger] line_cells(sm)[i] == (false, 1nat) by {
        let g = singles(t)[i];
        assert(g == seq![t[i]]);
        assert(0x21 <= t[i] as u32 <= 0x7e);
        assert(g != ZWSP@) by {
            assert(g[0] != ZWSP@[0]);
        }
        assert(!is_ws(g[0]));
        assert(!wrap_ws(g));
        assert(str_width(g) == 1);
    }
}

/// Model of lines of spans.
pub open spec fn text_model(lines: Seq<Vec<String>>) -> Seq<Seq<Seq<char>>> {
    Seq::new(lines.len(), |i: int| strings_model(lines[i]@))
}

/// Total visual rows of the first `n` lines at `width` columns.
pub open spec fn rows_total(lines: Seq<Seq<Seq<char>>>, n: int, width: nat) -> nat
    decreases n,
{
    if n <= 0 {
        0
    } else {
        rows_total(lines, n - 1, width) + line_rows(line_cells(lines[n - 1]), width)
    }
}

/// Visual rows of the text `lines` word-wrapped to `width` columns: 0 when
/// nothing can render (`width == 0`).
pub open spec fn text_rows(lines: Seq<Seq<Seq<char>>>, width: nat) -> nat {
    if width == 0 {
        0
    } else {
        rows_total(lines, lines.len() as int, width)
    }
}

/// Number of visual (wrapped) rows the text `lines` (each a line of spans)
/// occupies when word-wrapped to `width` columns (saturating at
/// `usize::MAX`).
pub fn wrapped_height(lines: &[Vec<String>], width: u16) -> (r: usize)
    ensures
        r as nat == sat(text_rows(text_model(lines@), width as nat)),
{
    if width == 0 {
        return 0;
    }
    let ghost tm = text_model(lines@);
    let mut total: usize = 0;
    let mut k: usize = 0;
    while k < lines.len()
        invariant
            k <= lines@.len(),
            width > 0,
            tm == text_model(lines@),
            total as nat == sat(rows_total(tm, k as int, width as nat)),
        decreases lines.len() - k,
    {
        let rows = wrapped_segments(lines[k].as_slice(), width);
        assert(tm[k as int] == strings_model(lines@[k as int]@));
        total = total.saturating_add(rows);
        k = k + 1;
    }
    total
}

// ── Scroll state ───────────────────────────────────────────────────────────

/// Scroll state for the Markdown view — one per viewer pane.
///
/// The scroll offset is measured in visual (wrapped) rows at the last
/// rendered viewport width. Both the viewport height and the wrapped row
/// count are learned at render time ([`Self::sync_layout`]), and every
/// operation keeps the offset within range.
#[derive(Debug, Clone)]
pub struct MarkdownViewState {
    scroll: u16,
    viewport: u16,
    line_count: usize,
}

impl Default for MarkdownViewState {
    fn default() -> (s: Self)
        ensures
            s.in_range(),
            s.offset() == 0,
            s.height() == 0,
            s.rows() == 0,
    {
        MarkdownViewState { scroll: 0, viewport: 0, line_count: 0 }
    }
}

impl MarkdownViewState {
    /// The scroll offset, in visual rows.
    pub closed spec fn offset(&self) -> nat {
        self.scroll as nat
    }

    /// The viewport height, in rows.
    pub closed spec fn height(&self) -> nat {
        self.viewport as nat
    }

    /// The (wrapped) row count of the document.
    pub closed spec fn rows(&self) -> nat {
        self.line_count as nat
    }

    /// The largest valid offset: the row count (capped at `u16::MAX`) less
    /// the viewport height, or 0.
    pub open spec fn max_offset(&self) -> nat {
        let rows = if self.rows() <= u16::MAX {
            self.rows()
        } else {
            u16::MAX as nat
        };
        if rows >= self.height() {
            (rows - self.height()) as nat
        } else {
            0
        }
    }

    /// The offset is within range: never past the last screenful.
    pub open spec fn in_range(&self) -> bool {
        self.offset() <= self.max_offset()
    }

    /// `x` clamped into `[0, max_offset]`.
    pub open spec fn clamped(&self, x: int) -> nat {
        if x < 0 {
            0
        } else if x > self.max_offset() {
            self.max_offset()
        } else {
            x as nat
        }
    }

    /// State for a document with `line_count` rendered lines (an estimate
    /// until the first render).
    pub fn new(line_count: usize) -> (s: Self)
        ensures
            s.in_range(),
            s.offset() == 0,
            s.height() == 1,
            s.rows() == line_count,
    {
        MarkdownViewState { scroll: 0, viewport: 1, line_count }
    }

    /// Updates the row count after the content changes, keeping the offset
    /// in range.
    pub fn set_line_count(&mut self, line_count: usize)
        ensures
            final(self).in_range(),
            final(self).rows() == line_count,
            final(self).height() == old(self).height(),
            final(self).offset() == if old(self).offset() <= final(self).max_offset() {
                old(self).offset()
            } else {
                final(self).max_offset()
            },
    {
        self.line_count = line_count;
        let m = self.max_scroll();
        if m < self.scroll {
            self.scroll = m;
        }
    }

    /// Current top-row offset, in visual rows.
    pub fn scroll(&self) -> (r: u16)
        ensures
            r == self.offset(),
    {
        self.scroll
    }

    /// Largest valid scroll offset: at this offset the last visual row sits
    /// on the bottom row of the viewport.
    pub fn max_scroll(&self) -> (r: u16)
        ensures
            r == self.max_offset(),
    {
        let rows: u16 = if self.line_count < 65535 {
            self.line_count as u16
        } else {
            65535
        };
        rows.saturating_sub(self.viewport)
    }

    /// Scrolls by a signed row delta, clamped into range.
    pub fn scroll_by(&mut self, delta: i32)
        ensures
            final(self).in_range(),
            final(self).rows() == old(self).rows(),
            final(self).height() == old(self).height(),
            final(self).offset() == old(self).clamped(old(self).offset() + delta),
    {
        let m = self.max_scroll() as i64;
        let x = self.scroll as i64 + delta as i64;
        let next = if x < 0 {
            0
        } else if x > m {
            m
        } else {
            x
        };
        self.scroll = next as u16;
    }

    /// Jumps to the top.
    pub fn scroll_to_top(&mut self)
        ensures
            final(self).in_range(),
            final(self).rows() == old(self).rows(),
            final(self).height() == old(self).height(),
            final(self).offset() == 0,
    {
        self.scroll = 0;
    }

    /// Jumps to the bottom: the last visual row lands on the bottom row of
    /// the viewport.
    pub fn scroll_to_bottom(&mut self)
        ensures
            final(self).in_range(),
            final(self).rows() == old(self).rows(),
            final(self).height() == old(self).height(),
            final(self).offset() == old(self).max_offset(),
    {
        self.scroll = self.max_scroll();
    }

    /// Half a viewport (at least one row) down, or up when `down` is false.
    pub fn half_page(&mut self, down: bool)
        ensures
            final(self).in_range(),
            final(self).rows() == old(self).rows(),
            final(self).height() == old(self).height(),
            final(self).offset() == old(self).clamped(
                if down {
                    old(self).offset() + half_step(old(self).height())
                } else {
                    old(self).offset() - half_step(old(self).height())
                },
            ),
    {
        let h = self.viewport / 2;
        let half: i32 = if h < 1 {
            1
        } else {
            h as i32
        };
        self.scroll_by(if down {
            half
        } else {
            -half
        });
    }

    /// A viewport less one row (at least one row) down, or up when `down`
    /// is false.
    pub fn page(&mut self, down: bool)
        ensures
            final(self).in_range(),
            final(self).rows() == old(self).rows(),
            final(self).height() == old(self).height(),
            final(self).offset() == old(self).clamped(
                if down {
                    old(self).offset() + page_step(old(self).height())
                } else {
                    old(self).offset() - page_step(old(self).height())
                },
            ),
    {
        let p = self.viewport.saturating_sub(1);
        let page: i32 = if p < 1 {
            1
        } else {
            p as i32
        };
        self.scroll_by(if down {
            page
        } else {
            -page
        });
    }

    /// Scroll progress, 0–100%; 0 when the document fits the viewport.
    pub fn percent(&self) -> (r: u16)
        ensures
            r == percent_of(self.offset(), self.max_offset()),
    {
        let max = self.max_scroll();
        if max == 0 {
            0
        } else {
            let p = (self.scroll as u32) * 100 / (max as u32);
            if p < 100 {
                p as u16
            } else {
                100
            }
        }
    }

    /// Whether the whole document fits the viewport (nothing to scroll).
    pub fn fits(&self) -> (b: bool)
        ensures
            b == (self.max_offset() == 0),
    {
        self.max_scroll() == 0
    }

    /// Records the viewport height and the wrapped row count for the width
    /// being rendered, and re-clamps the offset. Called at every render,
    /// before the offset is used.
    pub fn sync_layout(&mut self, height: u16, wrapped_rows: usize)
        ensures
            final(self).in_range(),
            final(self).height() == if height >= 1 {
                height as nat
            } else {
                1
            },
            final(self).rows() == wrapped_rows,
            final(self).offset() == if old(self).offset() <= final(self).max_offset() {
                old(self).offset()
            } else {
                final(self).max_offset()
            },
    {
        self.viewport = if height < 1 {
            1
        } else {
            height
        };
        self.line_count = wrapped_rows;
        let m = self.max_scroll();
        if m < self.scroll {
            self.scroll = m;
        }
    }
}

/// Rows a half-page scroll moves for a viewport of `h` rows.
pub open spec fn half_step(h: nat) -> int {
    if h / 2 < 1 {
        1
    } else {
        (h / 2) as int
    }
}

/// Rows a page scroll moves for a viewport of `h` rows.
pub open spec fn page_step(h: nat) -> int {
    if h <= 1 {
        1
    } else {
        h - 1
    }
}

/// Progress of offset `o` out of `max`, in percent.
pub open spec fn percent_of(o: nat, max: nat) -> nat {
    if max == 0 {
        0
    } else if o * 100 / max < 100 {
        o * 100 / max
    } else {
        100
    }
}

/// Law: every line takes at least one row, so a text wrapped to a positive
/// width takes at least as many rows as it has lines (a blank line too).
pub proof fn law_every_line_takes_a_row(lines: Seq<Seq<Seq<char>>>, width: nat)
    requires
        width > 0,
    ensures
        text_rows(lines, width) >= lines.len(),
        forall|cells: Seq<Cell>| #[trigger] line_rows(cells, width) >= 1,
{
    lemma_rows_total_at_least(lines, lines.len() as int, width);
}

proof fn lemma_rows_total_at_least(lines: Seq<Seq<Seq<char>>>, n: int, width: nat)
    requires
        0 <= n,
    ensures
        rows_total(lines, n, width) >= n,
    decreases n,
{
    if n > 0 {
        lemma_rows_total_at_least(lines, n - 1, width);
    }
}

/// The wrapper after `k >= 1` cells of an unbroken run of width-1
/// graphemes at `max >= 1` columns: `q` full rows emitted and a word of
/// `r + 1` columns pending, where `k - 1 == q * max + r`, `r < max`.
proof fn lemma_unbroken_run(cells: Seq<Cell>, k: int, max: nat) -> (qr: (nat, nat))
    requires
        max >= 1,
        1 <= k <= cells.len(),
        forall|i: int| 0 <= i < cells.len() ==> #[trigger] cells[i] == (false, 1nat),
    ensures
        qr.1 < max,
        k - 1 == qr.0 * max + qr.1,
        wrap_run(cells, k, max) == (WrapState {
            rows: qr.0,
            row_empty: true,
            row_width: 0,
            word_empty: false,
            word_width: qr.1 + 1,
            ws_width: 0,
            pending: seq![],
            after_word: true,
        }),
    decreases k,
{
    assert(cells[k - 1] == (false, 1nat));
    if k == 1 {
        assert(wrap_run(cells, 0, max) == wrap_start());
        assert(0 * max == 0) by (nonlinear_arith);
        (0, 0)
    } else {
        let (q, r) = lemma_unbroken_run(cells, k - 1, max);
        if r + 1 == max {
            assert(k - 1 == (q + 1) * max) by (nonlinear_arith)
                requires
                    k - 2 == q * max + r,
                    r + 1 == max,
            ;
            (q + 1, 0)
        } else {
            (q, r + 1)
        }
    }
}

/// Law: an unbroken run of `n >= 1` graphemes of width 1 (no whitespace)
/// takes `ceil(n / width)` rows at a positive width: more than
/// `(rows - 1) * width` graphemes, and at most `rows * width`.
pub proof fn law_unbroken_run_rows(cells: Seq<Cell>, width: nat)
    requires
        width >= 1,
        cells.len() >= 1,
        forall|i: int| 0 <= i < cells.len() ==> #[trigger] cells[i] == (false, 1nat),
    ensures
        line_rows(cells, width) >= 1,
        (line_rows(cells, width) - 1) * width < cells.len() <= line_rows(cells, width) * width,
{
    let (q, r) = lemma_unbroken_run(cells, cells.len() as int, width);
    assert(line_rows(cells, width) == q + 1);
    assert((q + 1 - 1) * width < cells.len() <= (q + 1) * width) by (nonlinear_arith)
        requires
            cells.len() - 1 == q * width + r,
            r < width,
    ;
}

/// Law: scrolling by `delta` and then by `-delta` returns to the starting
/// offset, whenever the first scroll was not stopped at the top or the
/// bottom. `after` is the state the first scroll leaves (as `scroll_by`
/// states it).
pub proof fn law_scroll_by_undoes(before: MarkdownViewState, after: MarkdownViewState, delta: int)
    requires
        before.in_range(),
        0 <= before.offset() + delta <= before.max_offset(),
        after.rows() == before.rows(),
        after.height() == before.height(),
        after.offset() == before.clamped(before.offset() + delta),
    ensures
        after.clamped(after.offset() - delta) == before.offset(),
{
}

/// Law: a page down followed by a page up returns to the starting offset,
/// unless the page down was stopped at the bottom. `after` is the state the
/// page down leaves (as `page` states it).
pub proof fn law_page_down_then_up(before: MarkdownViewState, after: MarkdownViewState)
    requires
        before.in_range(),
        before.offset() + page_step(before.height()) <= before.max_offset(),
        after.rows() == before.rows(),
        after.height() == before.height(),
        after.offset() == before.clamped(before.offset() + page_step(before.height())),
    ensures
        after.clamped(after.offset() - page_step(after.height())) == before.offset(),
{
}

/// Law: the progress of an offset `o` within a scroll range of `max > 0`
/// rows is its share of the range in whole percent, rounded down:
/// `p * max <= 100 * o < (p + 1) * max`. So it is below 100 until the
/// bottom is reached, and 100 there.
pub proof fn law_percent_is_share(o: nat, max: nat)
    requires
        max > 0,
        o <= max,
    ensures
        percent_of(o, max) * max <= 100 * o < (percent_of(o, max) + 1) * max,
        percent_of(o, max) <= 100,
        o < max ==> percent_of(o, max) < 100,
{
    let q = o * 100 / max;
    assert(q * max <= o * 100 < (q + 1) * max) by (nonlinear_arith)
        requires
            max > 0,
            q == o * 100 / max,
    ;
    assert(q <= 100) by (nonlinear_arith)
        requires
            q * max <= o * 100,
            o <= max,
            max > 0,
    ;
    if q == 100 {
        assert(o == max) by (nonlinear_arith)
            requires
                100 * max <= o * 100,
                o <= max,
        ;
    }
}

/// Law: scrolled to the bottom of a document taller than the viewport, the
/// last visual row sits on the bottom row of the viewport, and the progress
/// reads 100%.
pub proof fn law_bottom_is_the_end(s: MarkdownViewState)
    requires
        s.max_offset() > 0,
    ensures
        s.max_offset() + s.height() == if s.rows() <= u16::MAX {
            s.rows()
        } else {
            u16::MAX as nat
        },
        percent_of(s.max_offset(), s.max_offset()) == 100,
{
    assert(s.max_offset() * 100 / s.max_offset() == 100) by (nonlinear_arith)
        requires
            s.max_offset() > 0,
    {
    }
}

// ── Rendered text helpers ──────────────────────────────────────────────────

/// A hyperlink in rendered text: the line it is on (an index into the
/// rendered lines), its visible text and its target.
#[derive(Debug, Clone, PartialEq)]
pub struct LinkSpan {
    pub line: usize,
    pub text: String,
    pub href: String,
}

/// Width of `c` counted by truncation: its display width, 0 for control
/// characters.
pub open spec fn char_cols(c: char) -> nat {
    match char_width(c) {
        Some(w) => w,
        None => 0,
    }
}

/// How many leading characters of `s`, from `i` on, are kept within `limit`
/// columns: the first character that would push the kept prefix past the
/// limit stops the count.
pub open spec fn fit_len(s: Seq<char>, i: int, limit: nat) -> nat
    decreases s.len() - i,
{
    if i < 0 || i >= s.len() {
        s.len()
    } else if str_width(s.take(i)) + char_cols(s[i]) > limit {
        i as nat
    } else {
        fit_len(s, i + 1, limit)
    }
}

/// `s` cut to at most `width` columns, the tail replaced by `…` when it
/// does not fit.
pub open spec fn truncated(s: Seq<char>, width: nat) -> Seq<char> {
    if str_width(s) <= width {
        s
    } else if width == 0 {
        seq![]
    } else {
        s.take(fit_len(s, 0, (width - 1) as nat) as int).push('…')
    }
}

/// Truncates `s` to at most `width` display columns, replacing the tail
/// with `…` when it does not fit.
pub fn truncate(s: &str, width: usize) -> (r: String)
    ensures
        r@ == truncated(s@, width as nat),
{
    if text_width(s) <= width {
        return crate::text::owned(s);
    }
    if width == 0 {
        return crate::text::string_of(Vec::<char>::new().as_slice());
    }
    let cs = crate::text::chars_of(s);
    let limit = width - 1;
    let mut i: usize = 0;
    while i < cs.len()
        invariant
            i <= cs@.len(),
            cs@ == s@,
            limit == width - 1,
            fit_len(s@, 0, limit as nat) == fit_len(s@, i as int, limit as nat),
        ensures
            i <= cs@.len(),
            fit_len(s@, 0, limit as nat) == i,
        decreases cs.len() - i,
    {
        let kept = crate::text::slice_vec(cs.as_slice(), 0, i);
        let kept_s = crate::text::string_of(kept.as_slice());
        let cw: u128 = match char_display_width(cs[i]) {
            Some(w) => w as u128,
            None => 0,
        };
        assert(kept@ =~= s@.take(i as int));
        if text_width(kept_s.as_str()) as u128 + cw > limit as u128 {
            break;
        }
        i = i + 1;
    }
    let mut out = crate::text::slice_vec(cs.as_slice(), 0, i);
    out.push('…');
    crate::text::string_of(out.as_slice())
}

/// Column alignment of a table cell.
#[derive(Debug, Clone, Copy, PartialEq, Eq)]
pub enum Align {
    /// No alignment given (laid out as `Left`).
    Unset,
    Left,
    Center,
    Right,
}

/// `n` spaces.
pub open spec fn spaces(n: nat) -> Seq<char> {
    Seq::new(n, |i: int| ' ')
}

/// `s` padded with spaces to `width` columns per `align` (unchanged when
/// already as wide).
pub open spec fn padded(s: Seq<char>, width: nat, align: Align) -> Seq<char> {
    let gap: nat = if width >= str_width(s) {
        (width - str_width(s)) as nat
    } else {
        0
    };
    match align {
        Align::Right => spaces(gap) + s,
        Align::Center => spaces(gap / 2) + s + spaces((gap - gap / 2) as nat),
        _ => s + spaces(gap),
    }
}

fn push_spaces(out: &mut Vec<char>, n: usize)
    ensures
        final(out)@ == old(out)@ + spaces(n as nat),
{
    let mut i: usize = 0;
    while i < n
        invariant
            i <= n,
            out@ == old(out)@ + spaces(i as nat),
        decreases n - i,
    {
        out.push(' ');
        i = i + 1;
        assert(out@ =~= old(out)@ + spaces(i as nat));
    }
}

/// Pads `s` to exactly `width` display columns per its column alignment.
pub fn pad(s: &str, width: usize, align: Align) -> (r: String)
    ensures
        r@ == padded(s@, width as nat, align),
{
    let gap = width.saturating_sub(text_width(s));
    let cs = crate::text::chars_of(s);
    let mut out: Vec<char> = Vec::new();
    match align {
        Align::Right => {
            push_spaces(&mut out, gap);
            crate::text::push_all(&mut out, cs.as_slice());
        },
        Align::Center => {
            let left = gap / 2;
            let right = gap - left;
            push_spaces(&mut out, left);
            crate::text::push_all(&mut out, cs.as_slice());
            push_spaces(&mut out, right);
        },
        _ => {
            crate::text::push_all(&mut out, cs.as_slice());
            push_spaces(&mut out, gap);
        },
    }
    assert(out@ =~= padded(s@, width as nat, align));
    crate::text::string_of(out.as_slice())
}

} // verus!
