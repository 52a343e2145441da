//! HTML post-processing for rendered Markdown: math placeholders (extracted
//! before Markdown parsing, re-injected as KaTeX-ready elements afterwards),
//! Mermaid code blocks turned into Mermaid.js wrappers, and theme CSS.

use crate::escape::{escape, push_escape, EscapeSet};
use crate::text::{
    chars_of, decimal, decimal_chars, find_chars, find_from, index_of, lemma_find_from_result,
    matches_at, occurs_at, position_of, push_all, push_str, replace_all, replace_chars, rfind, rfind_chars,
    slice_vec, string_of, is_whitespace, is_ws,
};
use vstd::prelude::*;

verus! {

// ── Math ───────────────────────────────────────────────────────────────────

/// A math expression extracted from a Markdown source.
#[derive(Debug, Clone)]
pub struct MathPlaceholder {
    pub index: usize,
    pub source: String,
    /// `true` for `$$...$$` (block), `false` for `$...$` (inline).
    pub is_block: bool,
}

/// Model of a placeholder.
pub struct PlaceholderModel {
    pub index: nat,
    pub source: Seq<char>,
    pub is_block: bool,
}

pub open spec fn placeholder_model(p: MathPlaceholder) -> PlaceholderModel {
    PlaceholderModel { index: p.index as nat, source: p.source@, is_block: p.is_block }
}

pub open spec fn placeholders_model(v: Seq<MathPlaceholder>) -> Seq<PlaceholderModel> {
    Seq::new(v.len(), |i: int| placeholder_model(v[i]))
}

/// Text that replaces the `n`-th math expression: the prefix, then `n`.
pub const PLACEHOLDER_PREFIX: &'static str = "MATH_PLACEHOLDER_";

/// The token that stands for placeholder `n`.
pub open spec fn math_token(n: nat) -> Seq<char> {
    PLACEHOLDER_PREFIX@ + decimal(n)
}

/// Extraction from position `i` of `cs`, after the output `out` and the
/// placeholders `phs`. At a `$$` whose closing `$$` follows, the text
/// between becomes a block placeholder; otherwise at a `$` whose closing `$`
/// follows, non-empty text without a newline between becomes an inline
/// placeholder; every other character is copied.
pub open spec fn extract_from(cs: Seq<char>, i: int, out: Seq<char>, phs: Seq<PlaceholderModel>) -> (
    Seq<char>,
    Seq<PlaceholderModel>,
)
    decreases cs.len() - i,
{
    if i < 0 || i >= cs.len() {
        (out, phs)
    } else {
        let block_end = find_from(cs, "$$"@, i + 2);
        let inline_end = find_from(cs, "$"@, i + 1);
        proof {
            reveal_strlit("$$");
            reveal_strlit("$");
            lemma_find_from_result(cs, "$$"@, i + 2);
            lemma_find_from_result(cs, "$"@, i + 1);
        }
        if i + 1 < cs.len() && cs[i] == '$' && cs[i + 1] == '$' && block_end is Some {
            let end = block_end->0;
            extract_from(
                cs,
                end + 2,
                out + math_token(phs.len()),
                phs.push(
                    PlaceholderModel { index: phs.len(), source: cs.subrange(i + 2, end), is_block: true },
                ),
            )
        } else if cs[i] == '$' && inline_end is Some && inline_end->0 > i + 1 && index_of(
            cs.subrange(i + 1, inline_end->0),
            '\n',
        ) is None {
            let end = inline_end->0;
            extract_from(
                cs,
                end + 1,
                out + math_token(phs.len()),
                phs.push(
                    PlaceholderModel {
                        index: phs.len(),
                        source: cs.subrange(i + 1, end),
                        is_block: false,
                    },
                ),
            )
        } else {
            extract_from(cs, i + 1, out.push(cs[i]), phs)
        }
    }
}

/// The processed text and placeholders of `source`.
pub open spec fn extracted(source: Seq<char>) -> (Seq<char>, Seq<PlaceholderModel>) {
    extract_from(source, 0, seq![], seq![])
}

/// Replaces each math expression of `source` by the token of its
/// placeholder; returns the processed text and the placeholders in order.
pub fn extract_math(source: &str) -> (r: (String, Vec<MathPlaceholder>))
    ensures
        r.0@ == extracted(source@).0,
        placeholders_model(r.1@) == extracted(source@).1,
{
    let cs = chars_of(source);
    let dd = chars_of("$$");
    let d = chars_of("$");
    let mut out: Vec<char> = Vec::new();
    let mut phs: Vec<MathPlaceholder> = Vec::new();
    let mut i: usize = 0;
    let n = cs.len();
    assert(placeholders_model(phs@) =~= Seq::<PlaceholderModel>::empty());
    while i < n
        invariant
            n == cs@.len(),
            cs@ == source@,
            dd@ == "$$"@,
            d@ == "$"@,
            i <= n,
            extracted(source@) == extract_from(cs@, i as int, out@, placeholders_model(phs@)),
        decreases n - i,
    {
        proof {
            reveal_strlit("$$");
            reveal_strlit("$");
            lemma_find_from_result(cs@, "$$"@, i + 2);
            lemma_find_from_result(cs@, "$"@, i + 1);
        }
        let ghost pm = placeholders_model(phs@);
        if i + 1 < n && cs[i] == '$' && cs[i + 1] == '$' {
            if let Some(end) = find_chars(cs.as_slice(), dd.as_slice(), i + 2) {
                let src = slice_vec(cs.as_slice(), i + 2, end);
                let idx = phs.len();
                let ghost before = out@;
                push_str(&mut out, PLACEHOLDER_PREFIX);
                push_all(&mut out, decimal_chars(idx).as_slice());
                let p = MathPlaceholder { index: idx, source: string_of(src.as_slice()), is_block: true };
                phs.push(p);
                assert(placeholders_model(phs@) =~= pm.push(placeholder_model(p)));
                assert(out@ =~= before + math_token(pm.len()));
                assert(end + 2 <= n);
                i = end + 2;
                continue;
            }
        }
        if cs[i] == '$' {
            if let Some(end) = find_chars(cs.as_slice(), d.as_slice(), i + 1) {
                let src = slice_vec(cs.as_slice(), i + 1, end);
                if end > i + 1 && position_of(src.as_slice(), '\n').is_none() {
                    let idx = phs.len();
                    let ghost before = out@;
                    push_str(&mut out, PLACEHOLDER_PREFIX);
                    push_all(&mut out, decimal_chars(idx).as_slice());
                    let p = MathPlaceholder {
                        index: idx,
                        source: string_of(src.as_slice()),
                        is_block: false,
                    };
                    phs.push(p);
                    assert(placeholders_model(phs@) =~= pm.push(placeholder_model(p)));
                    assert(out@ =~= before + math_token(pm.len()));
                    i = end + 1;
                    continue;
                }
            }
        }
        out.push(cs[i]);
        i = i + 1;
    }
    (string_of(out.as_slice()), phs)
}

proof fn lemma_extract_plain(cs: Seq<char>, i: int, out: Seq<char>, phs: Seq<PlaceholderModel>)
    requires
        0 <= i <= cs.len(),
        forall|k: int| 0 <= k < cs.len() ==> cs[k] != '$',
    ensures
        extract_from(cs, i, out, phs) == (out + cs.skip(i), phs),
    decreases cs.len() - i,
{
    if i < cs.len() {
        lemma_extract_plain(cs, i + 1, out.push(cs[i]), phs);
        assert(out.push(cs[i]) + cs.skip(i + 1) =~= out + cs.skip(i));
    } else {
        assert(out + cs.skip(i) =~= out);
    }
}

/// Law: text without a `$` passes through extraction unchanged, with no
/// placeholders.
pub proof fn law_extract_without_math(source: Seq<char>)
    requires
        forall|k: int| 0 <= k < source.len() ==> source[k] != '$',
    ensures
        extracted(source) == (source, Seq::<PlaceholderModel>::empty()),
{
    lemma_extract_plain(source, 0, seq![], seq![]);
    assert(Seq::<char>::empty() + source.skip(0) =~= source);
}

/// Every placeholder is numbered by its position.
pub open spec fn numbered(phs: Seq<PlaceholderModel>) -> bool {
    forall|k: int| 0 <= k < phs.len() ==> #[trigger] phs[k].index == k
}

proof fn lemma_extract_numbered(cs: Seq<char>, i: int, out: Seq<char>, phs: Seq<PlaceholderModel>)
    requires
        numbered(phs),
    ensures
        numbered(extract_from(cs, i, out, phs).1),
    decreases cs.len() - i,
{
    if 0 <= i < cs.len() {
        reveal_strlit("$$");
        reveal_strlit("$");
        lemma_find_from_result(cs, "$$"@, i + 2);
        lemma_find_from_result(cs, "$"@, i + 1);
        let block_end = find_from(cs, "$$"@, i + 2);
        let inline_end = find_from(cs, "$"@, i + 1);
        if i + 1 < cs.len() && cs[i] == '$' && cs[i + 1] == '$' && block_end is Some {
            let end = block_end->0;
            let p2 = phs.push(
                PlaceholderModel { index: phs.len(), source: cs.subrange(i + 2, end), is_block: true },
            );
            assert(numbered(p2)) by {
                assert forall|k: int| 0 <= k < p2.len() implies #[trigger] p2[k].index == k by {
                    if k < phs.len() {
                        assert(p2[k] == phs[k]);
                    }
                }
            }
            lemma_extract_numbered(cs, end + 2, out + math_token(phs.len()), p2);
        } else if cs[i] == '$' && inline_end is Some && inline_end->0 > i + 1 && index_of(
            cs.subrange(i + 1, inline_end->0),
            '\n',
        ) is None {
            let end = inline_end->0;
            let p2 = phs.push(
                PlaceholderModel { index: phs.len(), source: cs.subrange(i + 1, end), is_block: false },
            );
            assert(numbered(p2)) by {
                assert forall|k: int| 0 <= k < p2.len() implies #[trigger] p2[k].index == k by {
                    if k < phs.len() {
                        assert(p2[k] == phs[k]);
                    }
                }
            }
            lemma_extract_numbered(cs, end + 1, out + math_token(phs.len()), p2);
        } else {
            lemma_extract_numbered(cs, i + 1, out.push(cs[i]), phs);
        }
    }
}

/// Law: the placeholders of an extraction are numbered 0, 1, 2, … in order,
/// so placeholder `k` stands for the `k`-th math expression.
pub proof fn law_extract_numbered(source: Seq<char>)
    ensures
        numbered(extracted(source).1),
{
    lemma_extract_numbered(source, 0, seq![], seq![]);
}

/// The element that replaces the token of `p`: a `div` for block math, a
/// `span` for inline math, with the source escaped in `data-math` and
/// verbatim as content.
pub open spec fn math_element(p: PlaceholderModel) -> Seq<char> {
    if p.is_block {
        "<div class=\"math-block\" data-math=\""@ + escape(p.source, EscapeSet::Attr) + "\">"@
            + p.source + "</div>"@
    } else {
        "<span class=\"math-inline\" data-math=\""@ + escape(p.source, EscapeSet::Attr) + "\">"@
            + p.source + "</span>"@
    }
}

/// `c` is an ASCII digit.
pub open spec fn is_digit(c: char) -> bool {
    '0' <= c && c <= '9'
}

/// How many ASCII digits of `s` follow one another from position `i` on.
pub open spec fn digit_run(s: Seq<char>, i: int) -> nat
    decreases s.len() - i,
{
    if i < 0 || i >= s.len() || !is_digit(s[i]) {
        0
    } else {
        1 + digit_run(s, i + 1)
    }
}

/// The first of `phs` whose number is written `digits`.
pub open spec fn placeholder_for(phs: Seq<PlaceholderModel>, digits: Seq<char>) -> Option<
    PlaceholderModel,
>
    decreases phs.len(),
{
    if phs.len() == 0 {
        None
    } else if decimal(phs[0].index) == digits {
        Some(phs[0])
    } else {
        placeholder_for(phs.drop_first(), digits)
    }
}

/// The whole placeholder token at position `i` of `html`, when there is
/// one that names a placeholder of `phs`: the prefix followed by the full
/// run of digits after it. Gives that placeholder and the token's width.
pub open spec fn token_at(html: Seq<char>, phs: Seq<PlaceholderModel>, i: int) -> Option<
    (PlaceholderModel, int),
> {
    let p = PLACEHOLDER_PREFIX@.len() as int;
    let n = digit_run(html, i + p) as int;
    if occurs_at(html, PLACEHOLDER_PREFIX@, i) && n > 0 {
        match placeholder_for(phs, html.subrange(i + p, i + p + n)) {
            Some(ph) => Some((ph, p + n)),
            None => None,
        }
    } else {
        None
    }
}

/// `html` from position `i` on, with every whole placeholder token that
/// names one of `phs` replaced by that placeholder's element, in one scan.
pub open spec fn injected_from(html: Seq<char>, phs: Seq<PlaceholderModel>, i: int) -> Seq<char>
    decreases html.len() - i,
{
    if i < 0 || i >= html.len() {
        seq![]
    } else {
        match token_at(html, phs, i) {
            Some((ph, w)) => if w > 0 && i + w <= html.len() {
                math_element(ph) + injected_from(html, phs, i + w)
            } else {
                seq![html[i]] + injected_from(html, phs, i + 1)
            },
            None => seq![html[i]] + injected_from(html, phs, i + 1),
        }
    }
}

/// `html` with every whole placeholder token that names one of `phs`
/// replaced by that placeholder's element.
pub open spec fn injected(html: Seq<char>, phs: Seq<PlaceholderModel>) -> Seq<char> {
    injected_from(html, phs, 0)
}

/// The number of ASCII digits of `s` from `i` on.
fn count_digits(s: &[char], i: usize) -> (n: usize)
    ensures
        n == digit_run(s@, i as int),
        i + n <= s@.len() || n == 0,
{
    let mut j = i;
    while j < s.len() && '0' <= s[j] && s[j] <= '9'
        invariant
            i <= j,
            j <= s@.len() || j == i,
            digit_run(s@, i as int) == (j - i) + digit_run(s@, j as int),
        decreases s.len() - j,
    {
        j = j + 1;
    }
    j - i
}

/// The position in `placeholders` of the first one whose number is written
/// `digits`.
fn find_placeholder(placeholders: &[MathPlaceholder], digits: &[char]) -> (r: Option<usize>)
    ensures
        match placeholder_for(placeholders_model(placeholders@), digits@) {
            Some(ph) => r matches Some(j) && j < placeholders@.len() && placeholder_model(
                placeholders@[j as int],
            ) == ph,
            None => r is None,
        },
{
    let ghost pm = placeholders_model(placeholders@);
    let mut j: usize = 0;
    assert(pm.skip(0) =~= pm);
    while j < placeholders.len()
        invariant
            j <= placeholders@.len(),
            pm == placeholders_model(placeholders@),
            placeholder_for(pm, digits@) == placeholder_for(pm.skip(j as int), digits@),
        decreases placeholders.len() - j,
    {
        let dec = decimal_chars(placeholders[j].index);
        assert(pm.skip(j as int)[0] == placeholder_model(placeholders@[j as int]));
        assert(pm.skip(j as int).drop_first() =~= pm.skip(j + 1));
        if dec.len() == digits.len() && matches_at(dec.as_slice(), digits, 0) {
            assert(dec@ =~= digits@) by {
                assert(dec@.subrange(0, digits@.len() as int) == digits@);
            }
            return Some(j);
        }
        assert(dec@ != digits@) by {
            if dec@ == digits@ {
                assert(dec@.subrange(0, digits@.len() as int) =~= digits@);
            }
        }
        j = j + 1;
    }
    assert(pm.skip(j as int) =~= Seq::<PlaceholderModel>::empty());
    None
}

/// The element of placeholder `ph`.
fn math_element_chars(ph: &MathPlaceholder) -> (r: Vec<char>)
    ensures
        r@ == math_element(placeholder_model(*ph)),
{
    let src = chars_of(ph.source.as_str());
    let mut rep: Vec<char> = Vec::new();
    if ph.is_block {
        push_str(&mut rep, "<div class=\"math-block\" data-math=\"");
        push_escape(&mut rep, src.as_slice(), EscapeSet::Attr);
        push_str(&mut rep, "\">");
        push_all(&mut rep, src.as_slice());
        push_str(&mut rep, "</div>");
    } else {
        push_str(&mut rep, "<span class=\"math-inline\" data-math=\"");
        push_escape(&mut rep, src.as_slice(), EscapeSet::Attr);
        push_str(&mut rep, "\">");
        push_all(&mut rep, src.as_slice());
        push_str(&mut rep, "</span>");
    }
    assert(rep@ =~= math_element(placeholder_model(*ph)));
    rep
}

/// Re-injects math placeholders as `<span>`/`<div>` elements: each whole
/// token (the prefix and the full number after it) is replaced by the
/// element of the placeholder with that number.
pub fn inject_math(html: &str, placeholders: &[MathPlaceholder]) -> (r: String)
    ensures
        r@ == injected(html@, placeholders_model(placeholders@)),
{
    let h = chars_of(html);
    let prefix = chars_of(PLACEHOLDER_PREFIX);
    let ghost pm = placeholders_model(placeholders@);
    let mut out: Vec<char> = Vec::new();
    let mut i: usize = 0;
    while i < h.len()
        invariant
            i <= h@.len(),
            h@ == html@,
            prefix@ == PLACEHOLDER_PREFIX@,
            pm == placeholders_model(placeholders@),
            injected(html@, pm) == out@ + injected_from(h@, pm, i as int),
        decreases h.len() - i,
    {
        let ghost before = out@;
        let mut next = i + 1;
        let mut replaced = false;
        if matches_at(h.as_slice(), prefix.as_slice(), i) {
            let start = i + prefix.len();
            let n = count_digits(h.as_slice(), start);
            if n > 0 {
                let digits = slice_vec(h.as_slice(), start, start + n);
                match find_placeholder(placeholders, digits.as_slice()) {
                    Some(j) => {
                        let el = math_element_chars(&placeholders[j]);
                        push_all(&mut out, el.as_slice());
                        next = start + n;
                        replaced = true;
                        assert(token_at(h@, pm, i as int) == Some(
                            (placeholder_model(placeholders@[j as int]), (prefix@.len() + n) as int),
                        ));
                    },
                    None => {
                        assert(token_at(h@, pm, i as int) is None);
                    },
                }
            } else {
                assert(token_at(h@, pm, i as int) is None);
            }
        } else {
            assert(token_at(h@, pm, i as int) is None);
        }
        if !replaced {
            out.push(h[i]);
        }
        assert(out@ + injected_from(h@, pm, next as int) =~= before + injected_from(h@, pm, i as int));
        i = next;
    }
    assert(injected_from(h@, pm, i as int) =~= Seq::<char>::empty());
    string_of(out.as_slice())
}

// ── Mermaid wrappers ───────────────────────────────────────────────────────

/// The code element that marks a Mermaid block.
pub const MERMAID_CODE_OPEN: &'static str = "<code class=\"language-mermaid\">";

/// The end of a Mermaid block.
pub const MERMAID_CODE_CLOSE: &'static str = "</code></pre>";

/// The `<pre` tag whose Mermaid code element starts at `k`: the last `<pre`
/// before `k`, when its tag ends before `k` with only whitespace between.
pub open spec fn pre_of_code(html: Seq<char>, k: int) -> Option<int> {
    match rfind(html.take(k), "<pre"@) {
        Some(p) => match find_from(html, ">"@, p) {
            Some(g) => if g < k && all_ws(html.subrange(g + 1, k)) {
                Some(p)
            } else {
                None
            },
            None => None,
        },
        None => None,
    }
}

/// Every character of `s` is whitespace.
pub open spec fn all_ws(s: Seq<char>) -> bool {
    forall|i: int| 0 <= i < s.len() ==> is_ws(#[trigger] s[i])
}

/// Whether `s[from..to]` is all whitespace.
fn ws_between(s: &[char], from: usize, to: usize) -> (b: bool)
    requires
        from <= to <= s@.len(),
    ensures
        b == all_ws(s@.subrange(from as int, to as int)),
{
    let mut i = from;
    while i < to
        invariant
            from <= i <= to <= s@.len(),
            forall|j: int| from <= j < i ==> is_ws(#[trigger] s@[j]),
        decreases to - i,
    {
        if !is_whitespace(s[i]) {
            assert(s@.subrange(from as int, to as int)[i - from] == s@[i as int]);
            return false;
        }
        i = i + 1;
    }
    assert forall|j: int| 0 <= j < to - from implies is_ws(#[trigger] s@.subrange(from as int, to as int)[j]) by {
        assert(s@.subrange(from as int, to as int)[j] == s@[from + j]);
    }
    true
}

/// Start of the first Mermaid block found from `from` on: a
/// `language-mermaid` marker that is the class of a
/// `<code class="language-mermaid">` element opened right after a `<pre …>`
/// tag; the block starts at that `<pre`. A marker anywhere else (inside
/// another block's text, say) is passed over.
#[verifier::opaque]
pub open spec fn mermaid_open_from(html: Seq<char>, from: int) -> Option<int>
    decreases html.len() - from,
{
    match find_from(html, "language-mermaid"@, from) {
        None => None,
        Some(m) => {
            proof {
                reveal_strlit("language-mermaid");
                lemma_find_from_result(html, "language-mermaid"@, from);
            }
            let k = m - 13;
            if k >= 0 && occurs_at(html, MERMAID_CODE_OPEN@, k) && pre_of_code(html, k) is Some {
                pre_of_code(html, k)
            } else {
                mermaid_open_from(html, m + "language-mermaid"@.len())
            }
        },
    }
}

/// The Mermaid.js wrapper for diagram source `src`.
pub open spec fn mermaid_div(src: Seq<char>) -> Seq<char> {
    "<div class=\"mermaid\" data-source=\""@ + escape(src, EscapeSet::Attr) + "\">"@ + src + "</div>"@
}

/// `html` with each complete Mermaid block — from its `<pre` through the
/// closing `</code></pre>` — replaced by its wrapper; the text from the
/// first incomplete block on is kept as it is.
#[verifier::opaque]
pub open spec fn mermaid_pass(html: Seq<char>) -> Seq<char>
    decreases html.len(),
{
    match mermaid_open_from(html, 0) {
        None => html,
        Some(pos) => match find_from(html, ">"@, pos) {
            None => html,
            Some(g) => match find_from(html, MERMAID_CODE_OPEN@, g + 1) {
                None => html,
                Some(c) => match find_from(html, MERMAID_CODE_CLOSE@, c + MERMAID_CODE_OPEN@.len()) {
                    None => html,
                    Some(e) => {
                        proof {
                            reveal_strlit("</code></pre>");
                            lemma_find_from_result(html, MERMAID_CODE_CLOSE@, c + MERMAID_CODE_OPEN@.len());
                        }
                        html.take(pos) + mermaid_div(html.subrange(c + MERMAID_CODE_OPEN@.len(), e))
                            + mermaid_pass(html.skip(e + MERMAID_CODE_CLOSE@.len()))
                    },
                },
            },
        },
    }
}

proof fn lemma_open_step(html: Seq<char>, from: int)
    ensures
        find_from(html, "language-mermaid"@, from) is None ==> mermaid_open_from(html, from) is None,
        find_from(html, "language-mermaid"@, from) matches Some(m) ==> mermaid_open_from(html, from)
            == if m - 13 >= 0 && occurs_at(html, MERMAID_CODE_OPEN@, m - 13) && pre_of_code(
            html,
            m - 13,
        ) is Some {
            pre_of_code(html, m - 13)
        } else {
            mermaid_open_from(html, m + "language-mermaid"@.len())
        },
{
    reveal(mermaid_open_from);
}

/// Executable `mermaid_open_from(html, 0)`.
#[verifier::rlimit(60)]
#[verifier::spinoff_prover]
fn find_mermaid_open(html: &[char]) -> (r: Option<usize>)
    ensures
        match mermaid_open_from(html@, 0) {
            Some(p) => r matches Some(q) && q == p,
            None => r is None,
        },
{
    let needle = chars_of("language-mermaid");
    let pre = chars_of("<pre");
    let gt = chars_of(">");
    let code_open = chars_of(MERMAID_CODE_OPEN);
    let mut from: usize = 0;
    proof {
        reveal_strlit("language-mermaid");
    }
    loop
        invariant
            needle@ == "language-mermaid"@,
            needle@.len() > 0,
            from <= html@.len(),
            pre@ == "<pre"@,
            gt@ == ">"@,
            code_open@ == MERMAID_CODE_OPEN@,
            mermaid_open_from(html@, 0) == mermaid_open_from(html@, from as int),
        decreases html@.len() - from,
    {
        proof {
            lemma_find_from_result(html@, needle@, from as int);
            lemma_open_step(html@, from as int);
        }
        let m = match find_chars(html, needle.as_slice(), from) {
            Some(m) => m,
            None => {
                return None;
            },
        };
        if m >= 13 && matches_at(html, code_open.as_slice(), m - 13) {
            let k = m - 13;
            let head = slice_vec(html, 0, k);
            assert(head@ =~= html@.take(k as int));
            if let Some(p) = rfind_chars(head.as_slice(), pre.as_slice()) {
                proof {
                    reveal_strlit("<pre");
                }
                match find_chars(html, gt.as_slice(), p) {
                    Some(g) => {
                        if g < k && ws_between(html, g + 1, k) {
                            return Some(p);
                        }
                    },
                    None => {},
                }
            }
        }
        let n = html.len();
        assert(m + needle@.len() <= n);
        from = m + needle.len();
    }
}

/// Replaces each Mermaid code block of rendered HTML
/// (`<pre …><code class="language-mermaid">…</code></pre>`) by a
/// `<div class="mermaid" data-source="…">…</div>` wrapper for the frontend
/// Mermaid renderer.
proof fn lemma_mermaid_pass_stop(html: Seq<char>)
    requires
        match mermaid_open_from(html, 0) {
            None => true,
            Some(pos) => match find_from(html, ">"@, pos) {
                None => true,
                Some(g) => match find_from(html, MERMAID_CODE_OPEN@, g + 1) {
                    None => true,
                    Some(c) => find_from(html, MERMAID_CODE_CLOSE@, c + MERMAID_CODE_OPEN@.len()) is None,
                },
            },
        },
    ensures
        mermaid_pass(html) == html,
{
    reveal(mermaid_pass);
    reveal(mermaid_open_from);
}

proof fn lemma_mermaid_pass_step(html: Seq<char>, pos: int, g: int, c: int, e: int)
    requires
        mermaid_open_from(html, 0) == Some(pos),
        find_from(html, ">"@, pos) == Some(g),
        find_from(html, MERMAID_CODE_OPEN@, g + 1) == Some(c),
        find_from(html, MERMAID_CODE_CLOSE@, c + MERMAID_CODE_OPEN@.len()) == Some(e),
    ensures
        mermaid_pass(html) == html.take(pos) + mermaid_div(html.subrange(c + MERMAID_CODE_OPEN@.len(), e))
            + mermaid_pass(html.skip(e + MERMAID_CODE_CLOSE@.len())),
{
    reveal(mermaid_pass);
}

/// Replaces each Mermaid code block of rendered HTML
/// (`<pre …><code class="language-mermaid">…</code></pre>`) by a
/// `<div class="mermaid" data-source="…">…</div>` wrapper for the frontend
/// Mermaid renderer.
pub fn inject_mermaid_wrappers(html: &str) -> (r: String)
    ensures
        r@ == mermaid_pass(html@),
{
    let gt = chars_of(">");
    let open = chars_of(MERMAID_CODE_OPEN);
    let close = chars_of(MERMAID_CODE_CLOSE);
    let mut out: Vec<char> = Vec::new();
    let mut rest = chars_of(html);
    proof {
        reveal_strlit("</code></pre>");
        reveal_strlit(">");
    }
    loop
        invariant
            gt@ == ">"@,
            gt@.len() == 1,
            open@ == MERMAID_CODE_OPEN@,
            close@ == MERMAID_CODE_CLOSE@,
            close@.len() > 0,
            out@ + mermaid_pass(rest@) == mermaid_pass(html@),
        decreases rest@.len(),
    {
        let ghost before = out@;
        let ghost r0 = rest@;
        let n = rest.len();
        let found = match find_mermaid_open(rest.as_slice()) {
            Some(pos) => match find_chars(rest.as_slice(), gt.as_slice(), pos) {
                Some(g) => {
                    assert(g < n);
                    match find_chars(rest.as_slice(), open.as_slice(), g + 1) {
                        Some(c) => {
                            assert(c + open@.len() <= n);
                            match find_chars(rest.as_slice(), close.as_slice(), c + open.len()) {
                                Some(e) => Some((pos, g, c, e)),
                                None => None,
                            }
                        },
                        None => None,
                    }
                },
                None => None,
            },
            None => None,
        };
        match found {
            None => {
                proof {
                    lemma_mermaid_pass_stop(r0);
                }
                push_all(&mut out, rest.as_slice());
                return string_of(out.as_slice());
            },
            Some((pos, g, c, e)) => {
                proof {
                    lemma_mermaid_pass_step(r0, pos as int, g as int, c as int, e as int);
                    lemma_find_from_result(r0, ">"@, pos as int);
                    lemma_find_from_result(r0, MERMAID_CODE_OPEN@, g + 1);
                }
                let start = c + open.len();
                assert(e + close@.len() <= n);
                assert(pos <= start);
                let head = slice_vec(rest.as_slice(), 0, pos);
                let src = slice_vec(rest.as_slice(), start, e);
                let tail = slice_vec(rest.as_slice(), e + close.len(), n);
                push_all(&mut out, head.as_slice());
                push_str(&mut out, "<div class=\"mermaid\" data-source=\"");
                push_escape(&mut out, src.as_slice(), EscapeSet::Attr);
                push_str(&mut out, "\">");
                push_all(&mut out, src.as_slice());
                push_str(&mut out, "</div>");
                assert(head@ =~= r0.take(pos as int));
                assert(src@ =~= r0.subrange(start as int, e as int));
                assert(tail@ =~= r0.skip(e + MERMAID_CODE_CLOSE@.len()));
                assert(out@ =~= before + (r0.take(pos as int) + mermaid_div(src@)));
                assert(out@ + mermaid_pass(tail@) =~= before + mermaid_pass(r0));
                rest = tail;
            },
        }
    }
}

/// Law: HTML without a `language-mermaid` marker passes through unchanged.
pub proof fn law_mermaid_passthrough(html: Seq<char>)
    requires
        find_from(html, "language-mermaid"@, 0) is None,
    ensures
        mermaid_pass(html) == html,
{
    reveal(mermaid_pass);
    reveal(mermaid_open_from);
}

// ── Themes and output ──────────────────────────────────────────────────────

/// Available render themes.
#[derive(Debug, Clone, Copy, PartialEq, Eq)]
pub enum Theme {
    Default,
    Dark,
    Solarized,
}

impl Default for Theme {
    fn default() -> (t: Self)
        ensures
            t == Theme::Default,
    {
        Theme::Default
    }
}

/// Stylesheet of the default (light) theme.
pub const DEFAULT_CSS: &'static str = "body{font-family:-apple-system,BlinkMacSystemFont,\"Segoe UI\",Helvetica,Arial,sans-serif;line-height:1.6;color:#24292f;background:#ffffff;max-width:860px;margin:0 auto;padding:2rem}a{color:#0969da}pre.code-block{background:#f6f8fa;padding:1rem;border-radius:6px;overflow:auto}code{font-family:ui-monospace,SFMono-Regular,Menlo,monospace}table{border-collapse:collapse}th,td{border:1px solid #d0d7de;padding:.4rem .8rem}blockquote{color:#57606a;border-left:.25em solid #d0d7de;margin:0;padding:0 1em}.math-block{text-align:center;margin:1em 0}.mermaid{text-align:center}";

/// Stylesheet of the dark theme.
pub const DARK_CSS: &'static str = "body{font-family:-apple-system,BlinkMacSystemFont,\"Segoe UI\",Helvetica,Arial,sans-serif;line-height:1.6;color:#e6edf3;background:#0d1117;max-width:860px;margin:0 auto;padding:2rem}a{color:#4493f8}pre.code-block{background:#161b22;padding:1rem;border-radius:6px;overflow:auto}code{font-family:ui-monospace,SFMono-Regular,Menlo,monospace}table{border-collapse:collapse}th,td{border:1px solid #30363d;padding:.4rem .8rem}blockquote{color:#9198a1;border-left:.25em solid #30363d;margin:0;padding:0 1em}.math-block{text-align:center;margin:1em 0}.mermaid{text-align:center}";

/// Stylesheet of the Solarized theme.
pub const SOLARIZED_CSS: &'static str = "body{font-family:-apple-system,BlinkMacSystemFont,\"Segoe UI\",Helvetica,Arial,sans-serif;line-height:1.6;color:#657b83;background:#fdf6e3;max-width:860px;margin:0 auto;padding:2rem}a{color:#268bd2}pre.code-block{background:#eee8d5;padding:1rem;border-radius:6px;overflow:auto}code{font-family:ui-monospace,SFMono-Regular,Menlo,monospace}table{border-collapse:collapse}th,td{border:1px solid #93a1a1;padding:.4rem .8rem}blockquote{color:#93a1a1;border-left:.25em solid #93a1a1;margin:0;padding:0 1em}.math-block{text-align:center;margin:1em 0}.mermaid{text-align:center}";

/// The stylesheet of `t`.
pub open spec fn theme_css(t: Theme) -> Seq<char> {
    match t {
        Theme::Default => DEFAULT_CSS@,
        Theme::Dark => DARK_CSS@,
        Theme::Solarized => SOLARIZED_CSS@,
    }
}

impl Theme {
    /// Returns the CSS string for this theme.
    pub fn css(&self) -> (r: &'static str)
        ensures
            r@ == theme_css(*self),
    {
        match self {
            Theme::Default => DEFAULT_CSS,
            Theme::Dark => DARK_CSS,
            Theme::Solarized => SOLARIZED_CSS,
        }
    }
}

/// The theme a tool argument names: `dark` and `solarized` select theirs;
/// anything else, or no argument, the default.
pub open spec fn theme_named(name: Option<Seq<char>>) -> Theme {
    if name == Some("dark"@) {
        Theme::Dark
    } else if name == Some("solarized"@) {
        Theme::Solarized
    } else {
        Theme::Default
    }
}

/// Maps the `theme` argument to a [`Theme`]; unknown or absent falls back
/// to the default.
pub fn parse_theme(name: Option<&str>) -> (t: Theme)
    ensures
        t == theme_named(match name {
            Some(n) => Some(n@),
            None => None,
        }),
{
    match name {
        Some(n) => {
            let s = crate::text::owned(n);
            if s == crate::text::owned("dark") {
                Theme::Dark
            } else if s == crate::text::owned("solarized") {
                Theme::Solarized
            } else {
                Theme::Default
            }
        },
        None => Theme::Default,
    }
}

/// The name a theme is reported under.
pub open spec fn theme_label(t: Theme) -> Seq<char> {
    match t {
        Theme::Default => "default"@,
        Theme::Dark => "dark"@,
        Theme::Solarized => "solarized"@,
    }
}

/// The name `theme` is reported under.
pub fn theme_name(theme: Theme) -> (r: &'static str)
    ensures
        r@ == theme_label(theme),
{
    match theme {
        Theme::Default => "default",
        Theme::Dark => "dark",
        Theme::Solarized => "solarized",
    }
}

/// Reporting a theme by name and reading the name back gives the theme.
pub proof fn law_theme_name_round_trips(t: Theme)
    ensures
        theme_named(Some(theme_label(t))) == t,
{
    reveal_strlit("default");
    reveal_strlit("dark");
    reveal_strlit("solarized");
    assert("default"@.len() == 7);
    assert("dark"@.len() == 4);
    assert("solarized"@.len() == 9);
    assert("default"@ != "dark"@);
    assert("default"@ != "solarized"@);
    assert("dark"@ != "solarized"@);
}

/// The rendered output of a document.
#[derive(Debug, Clone)]
pub struct RenderOutput {
    /// Full HTML fragment including `<style>` from the chosen theme.
    pub html: String,
    /// Body content only — no CSS wrapper.
    pub body_html: String,
}


/// The page background each theme's stylesheet sets.
pub open spec fn page_background(t: Theme) -> Seq<char> {
    match t {
        Theme::Default => "#ffffff"@,
        Theme::Dark => "#0d1117"@,
        Theme::Solarized => "#fdf6e3"@,
    }
}

/// Law: every theme's stylesheet sets the page background of that theme
/// (white for the default, GitHub dark for the dark one, Solarized's base3
/// for Solarized), so no two themes share a stylesheet.
pub proof fn law_theme_stylesheets(a: Theme, b: Theme)
    ensures
        exists|k: int|
            0 <= k && k + 18 <= theme_css(a).len() && #[trigger] theme_css(a).subrange(k, k + 18)
                == "background:"@ + page_background(a),
        theme_css(a) == theme_css(b) ==> a == b,
{
    reveal_strlit("background:");
    reveal_strlit("#ffffff");
    reveal_strlit("#0d1117");
    reveal_strlit("#fdf6e3");
    reveal_strlit("body{font-family:-apple-system,BlinkMacSystemFont,\"Segoe UI\",Helvetica,Arial,sans-serif;line-height:1.6;color:#24292f;background:#ffffff;max-width:860px;margin:0 auto;padding:2rem}a{color:#0969da}pre.code-block{background:#f6f8fa;padding:1rem;border-radius:6px;overflow:auto}code{font-family:ui-monospace,SFMono-Regular,Menlo,monospace}table{border-collapse:collapse}th,td{border:1px solid #d0d7de;padding:.4rem .8rem}blockquote{color:#57606a;border-left:.25em solid #d0d7de;margin:0;padding:0 1em}.math-block{text-align:center;margin:1em 0}.mermaid{text-align:center}");
    reveal_strlit("body{font-family:-apple-system,BlinkMacSystemFont,\"Segoe UI\",Helvetica,Arial,sans-serif;line-height:1.6;color:#e6edf3;background:#0d1117;max-width:860px;margin:0 auto;padding:2rem}a{color:#4493f8}pre.code-block{background:#161b22;padding:1rem;border-radius:6px;overflow:auto}code{font-family:ui-monospace,SFMono-Regular,Menlo,monospace}table{border-collapse:collapse}th,td{border:1px solid #30363d;padding:.4rem .8rem}blockquote{color:#9198a1;border-left:.25em solid #30363d;margin:0;padding:0 1em}.math-block{text-align:center;margin:1em 0}.mermaid{text-align:center}");
    reveal_strlit("body{font-family:-apple-system,BlinkMacSystemFont,\"Segoe UI\",Helvetica,Arial,sans-serif;line-height:1.6;color:#657b83;background:#fdf6e3;max-width:860px;margin:0 auto;padding:2rem}a{color:#268bd2}pre.code-block{background:#eee8d5;padding:1rem;border-radius:6px;overflow:auto}code{font-family:ui-monospace,SFMono-Regular,Menlo,monospace}table{border-collapse:collapse}th,td{border:1px solid #93a1a1;padding:.4rem .8rem}blockquote{color:#93a1a1;border-left:.25em solid #93a1a1;margin:0;padding:0 1em}.math-block{text-align:center;margin:1em 0}.mermaid{text-align:center}");
    assert(theme_css(a).len() == 568);
    let k: int = 118;
    assert(theme_css(a).subrange(k, k + 18) =~= "background:"@ + page_background(a));
    assert(theme_css(a).subrange(118, 136) =~= "background:"@ + page_background(a));
    assert(theme_css(b).subrange(118, 136) =~= "background:"@ + page_background(b));
    if theme_css(a) == theme_css(b) && a != b {
        assert(page_background(a) != page_background(b)) by {
            assert(page_background(a)[1] != page_background(b)[1] || page_background(a)[2] != page_background(
                b,
            )[2]);
        }
        assert(theme_css(a).subrange(118, 136).subrange(11, 18) == page_background(a));
        assert(theme_css(b).subrange(118, 136).subrange(11, 18) == page_background(b));
    }
}

/// Law: the element of a math placeholder keeps its source twice, escaped
/// in its `data-math` attribute (which the KaTeX frontend renders from) and
/// verbatim as its content: block math is a `math-block` `div`, inline
/// math a `math-inline` `span`, of exactly that shape.
pub proof fn law_math_element_keeps_source(p: PlaceholderModel)
    ensures
        p.is_block ==> math_element(p) == "<div class=\"math-block\""@ + " data-math=\""@ + escape(
            p.source,
            EscapeSet::Attr,
        ) + "\">"@ + p.source + "</div>"@,
        !p.is_block ==> math_element(p) == "<span class=\"math-inline\""@ + " data-math=\""@ + escape(
            p.source,
            EscapeSet::Attr,
        ) + "\">"@ + p.source + "</span>"@,
{
    reveal_strlit("<div class=\"math-block\" data-math=\"");
    reveal_strlit("<span class=\"math-inline\" data-math=\"");
    reveal_strlit("<div class=\"math-block\"");
    reveal_strlit("<span class=\"math-inline\"");
    reveal_strlit(" data-math=\"");
    assert("<div class=\"math-block\" data-math=\""@ =~= "<div class=\"math-block\""@ + " data-math=\""@);
    assert("<span class=\"math-inline\" data-math=\""@ =~= "<span class=\"math-inline\""@ + " data-math=\""@);
    if p.is_block {
        assert(math_element(p) =~= "<div class=\"math-block\""@ + " data-math=\""@ + escape(p.source, EscapeSet::Attr)
            + "\">"@ + p.source + "</div>"@);
    } else {
        assert(math_element(p) =~= "<span class=\"math-inline\""@ + " data-math=\""@ + escape(
            p.source,
            EscapeSet::Attr,
        ) + "\">"@ + p.source + "</span>"@);
    }
}

} // verus!
