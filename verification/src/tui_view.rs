//! Scroll state for the terminal viewer's Markdown pane, which counts
//! logical lines.

use vstd::prelude::*;

verus! {

/// Scroll state for the terminal viewer's Markdown pane — one per pane.
///
/// The offset counts logical lines. The viewport height is learned at render
/// time ([`Self::sync_viewport`]), so page, half-page and bottom are correct
/// against whatever area the view was last drawn into. The row count is capped
/// at `u16::MAX` in the range computation.
#[derive(Debug, Clone)]
pub struct MarkdownViewState {
    scroll: u16,
    viewport: u16,
    line_count: usize,
}

impl Default for MarkdownViewState {
    fn default() -> (s: Self)
        ensures
            s.in_range(),
            s.offset() == 0,
            s.height() == 0,
            s.rows() == 0,
    {
        MarkdownViewState { scroll: 0, viewport: 0, line_count: 0 }
    }
}

impl MarkdownViewState {
    /// The scroll offset, in visual rows.
    pub closed spec fn offset(&self) -> nat {
        self.scroll as nat
    }

    /// The viewport height, in rows.
    pub closed spec fn height(&self) -> nat {
        self.viewport as nat
    }

    /// The (wrapped) row count of the document.
    pub closed spec fn rows(&self) -> nat {
        self.line_count as nat
    }

    /// The largest valid offset: the row count (capped at `u16::MAX`) less
    /// the viewport height, or 0.
    pub open spec fn max_offset(&self) -> nat {
        let rows = if self.rows() <= u16::MAX {
            self.rows()
        } else {
            u16::MAX as nat
        };
        if rows >= self.height() {
            (rows - self.height()) as nat
        } else {
            0
        }
    }

    /// The offset is within range: never past the last screenful.
    pub open spec fn in_range(&self) -> bool {
        self.offset() <= self.max_offset()
    }

    /// `x` clamped into `[0, max_offset]`.
    pub open spec fn clamped(&self, x: int) -> nat {
        if x < 0 {
            0
        } else if x > self.max_offset() {
            self.max_offset()
        } else {
            x as nat
        }
    }

    /// State for a document with `line_count` rendered lines (an estimate
    /// until the first render).
    pub fn new(line_count: usize) -> (s: Self)
        ensures
            s.in_range(),
            s.offset() == 0,
            s.height() == 1,
            s.rows() == line_count,
    {
        MarkdownViewState { scroll: 0, viewport: 1, line_count }
    }

    /// Updates the row count after the content changes, keeping the offset
    /// in range.
    pub fn set_line_count(&mut self, line_count: usize)
        ensures
            final(self).in_range(),
            final(self).rows() == line_count,
            final(self).height() == old(self).height(),
            final(self).offset() == if old(self).offset() <= final(self).max_offset() {
                old(self).offset()
            } else {
                final(self).max_offset()
            },
    {
        self.line_count = line_count;
        let m = self.max_scroll();
        if m < self.scroll {
            self.scroll = m;
        }
    }

    /// Current top-row offset, in visual rows.
    pub fn scroll(&self) -> (r: u16)
        ensures
            r == self.offset(),
    {
        self.scroll
    }

    /// Largest valid scroll offset: at this offset the last visual row sits
    /// on the bottom row of the viewport.
    pub fn max_scroll(&self) -> (r: u16)
        ensures
            r == self.max_offset(),
    {
        let rows: u16 = if self.line_count < 65535 {
            self.line_count as u16
        } else {
            65535
        };
        rows.saturating_sub(self.viewport)
    }

    /// Scrolls by a signed row delta, clamped into range.
    pub fn scroll_by(&mut self, delta: i32)
        ensures
            final(self).in_range(),
            final(self).rows() == old(self).rows(),
            final(self).height() == old(self).height(),
            final(self).offset() == old(self).clamped(old(self).offset() + delta),
    {
        let m = self.max_scroll() as i64;
        let x = self.scroll as i64 + delta as i64;
        let next = if x < 0 {
            0
        } else if x > m {
            m
        } else {
            x
        };
        self.scroll = next as u16;
    }

    /// Jumps to the top.
    pub fn scroll_to_top(&mut self)
        ensures
            final(self).in_range(),
            final(self).rows() == old(self).rows(),
            final(self).height() == old(self).height(),
            final(self).offset() == 0,
    {
        self.scroll = 0;
    }

    /// Jumps to the bottom: the last visual row lands on the bottom row of
    /// the viewport.
    pub fn scroll_to_bottom(&mut self)
        ensures
            final(self).in_range(),
            final(self).rows() == old(self).rows(),
            final(self).height() == old(self).height(),
            final(self).offset() == old(self).max_offset(),
    {
        self.scroll = self.max_scroll();
    }

    /// Half a viewport (at least one row) down, or up when `down` is false.
    pub fn half_page(&mut self, down: bool)
        ensures
            final(self).in_range(),
            final(self).rows() == old(self).rows(),
            final(self).height() == old(self).height(),
            final(self).offset() == old(self).clamped(
                if down {
                    old(self).offset() + crate::view::half_step(old(self).height())
                } else {
                    old(self).offset() - crate::view::half_step(old(self).height())
                },
            ),
    {
        let h = self.viewport / 2;
        let half: i32 = if h < 1 {
            1
        } else {
            h as i32
        };
        self.scroll_by(if down {
            half
        } else {
            -half
        });
    }

    /// A viewport less one row (at least one row) down, or up when `down`
    /// is false.
    pub fn page(&mut self, down: bool)
        ensures
            final(self).in_range(),
            final(self).rows() == old(self).rows(),
            final(self).height() == old(self).height(),
            final(self).offset() == old(self).clamped(
                if down {
                    old(self).offset() + crate::view::page_step(old(self).height())
                } else {
                    old(self).offset() - crate::view::page_step(old(self).height())
                },
            ),
    {
        let p = self.viewport.saturating_sub(1);
        let page: i32 = if p < 1 {
            1
        } else {
            p as i32
        };
        self.scroll_by(if down {
            page
        } else {
            -page
        });
    }

    /// Scroll progress, 0–100%; 0 when the document fits the viewport.
    pub fn percent(&self) -> (r: u16)
        ensures
            r == crate::view::percent_of(self.offset(), self.max_offset()),
    {
        let max = self.max_scroll();
        if max == 0 {
            0
        } else {
            let p = (self.scroll as u32) * 100 / (max as u32);
            if p < 100 {
                p as u16
            } else {
                100
            }
        }
    }

    /// Whether the whole document fits the viewport (nothing to scroll).
    pub fn fits(&self) -> (b: bool)
        ensures
            b == (self.max_offset() == 0),
    {
        self.max_scroll() == 0
    }

    /// Records the viewport height at render time and re-clamps the offset.
    pub fn sync_viewport(&mut self, height: u16)
        ensures
            final(self).in_range(),
            final(self).height() == if height >= 1 {
                height as nat
            } else {
                1
            },
            final(self).rows() == old(self).rows(),
            final(self).offset() == if old(self).offset() <= final(self).max_offset() {
                old(self).offset()
            } else {
                final(self).max_offset()
            },
    {
        self.viewport = if height < 1 {
            1
        } else {
            height
        };
        let m = self.max_scroll();
        if m < self.scroll {
            self.scroll = m;
        }
    }
}

} // verus!
