//! Character-sequence helpers shared by the parsers and post-processors.
//!
//! Every string the library inspects is viewed as a `Seq<char>`; the helpers
//! here give the direct mathematical meaning of the few `str` operations the
//! logic relies on (line splitting, whitespace trimming, searching) and prove
//! executable versions against them.

use vstd::prelude::*;

verus! {

// ── Conversions between `str`/`String` and character vectors ──────────────

/// The characters of `s`, in order.
pub fn chars_of(s: &str) -> (v: Vec<char>)
    ensures
        v@ == s@,
{
    let mut v: Vec<char> = Vec::new();
    for c in it: s.chars()
        invariant
            v@ == it.seq().take(it.index()),
            it.seq() == s@,
    {
        v.push(c);
    }
    v
}

/// Builds an owned `String` holding exactly the characters of `v`
/// (std's `FromIterator<&char> for String`).
#[verifier::external_body]
pub fn string_of(v: &[char]) -> (s: String)
    ensures
        s@ == v@,
{
    v.iter().collect()
}

/// An owned `String` holding the characters of `s`.
pub fn owned(s: &str) -> (r: String)
    ensures
        r@ == s@,
{
    s.to_owned()
}

// ── Whitespace ─────────────────────────────────────────────────────────────

/// Unicode `White_Space`, the property `char::is_whitespace` tests.
pub open spec fn is_ws(c: char) -> bool {
    let u = c as u32;
    ||| 0x09 <= u <= 0x0d
    ||| u == 0x20
    ||| u == 0x85
    ||| u == 0xa0
    ||| u == 0x1680
    ||| 0x2000 <= u <= 0x200a
    ||| u == 0x2028
    ||| u == 0x2029
    ||| u == 0x202f
    ||| u == 0x205f
    ||| u == 0x3000
}

/// Executable `char::is_whitespace`.
pub fn is_whitespace(c: char) -> (b: bool)
    ensures
        b == is_ws(c),
{
    let u = c as u32;
    (0x09 <= u && u <= 0x0d) || u == 0x20 || u == 0x85 || u == 0xa0 || u == 0x1680 || (0x2000
        <= u && u <= 0x200a) || u == 0x2028 || u == 0x2029 || u == 0x202f || u == 0x205f || u
        == 0x3000
}

/// `s` without leading whitespace.
pub open spec fn trim_start(s: Seq<char>) -> Seq<char>
    decreases s.len(),
{
    if s.len() > 0 && is_ws(s[0]) {
        trim_start(s.drop_first())
    } else {
        s
    }
}

/// `s` without trailing whitespace.
pub open spec fn trim_end(s: Seq<char>) -> Seq<char>
    decreases s.len(),
{
    if s.len() > 0 && is_ws(s.last()) {
        trim_end(s.drop_last())
    } else {
        s
    }
}

/// `str::trim`: `s` without leading and trailing whitespace.
pub open spec fn trim(s: Seq<char>) -> Seq<char> {
    trim_end(trim_start(s))
}

/// Number of leading whitespace characters of `s`.
pub open spec fn lead_ws(s: Seq<char>) -> nat
    decreases s.len(),
{
    if s.len() > 0 && is_ws(s[0]) {
        1 + lead_ws(s.drop_first())
    } else {
        0
    }
}

pub proof fn lemma_trim_start(s: Seq<char>)
    ensures
        lead_ws(s) <= s.len(),
        trim_start(s) == s.skip(lead_ws(s) as int),
        forall|i: int| 0 <= i < lead_ws(s) ==> is_ws(#[trigger] s[i]),
        lead_ws(s) < s.len() ==> !is_ws(s[lead_ws(s) as int]),
    decreases s.len(),
{
    if s.len() > 0 && is_ws(s[0]) {
        lemma_trim_start(s.drop_first());
        assert(s.drop_first().skip(lead_ws(s.drop_first()) as int) =~= s.skip(lead_ws(s) as int));
        assert forall|i: int| 0 <= i < lead_ws(s) implies is_ws(#[trigger] s[i]) by {
            if i > 0 {
                assert(s[i] == s.drop_first()[i - 1]);
            }
        }
    } else {
        assert(s.skip(0) =~= s);
    }
}

/// Number of trailing whitespace characters of `s`.
pub open spec fn trail_ws(s: Seq<char>) -> nat
    decreases s.len(),
{
    if s.len() > 0 && is_ws(s.last()) {
        1 + trail_ws(s.drop_last())
    } else {
        0
    }
}

pub proof fn lemma_trim_end(s: Seq<char>)
    ensures
        trail_ws(s) <= s.len(),
        trim_end(s) == s.take(s.len() - trail_ws(s)),
        forall|i: int| s.len() - trail_ws(s) <= i < s.len() ==> is_ws(#[trigger] s[i]),
        trail_ws(s) < s.len() ==> !is_ws(s[s.len() - trail_ws(s) - 1]),
    decreases s.len(),
{
    if s.len() > 0 && is_ws(s.last()) {
        lemma_trim_end(s.drop_last());
        assert(s.drop_last().take(s.drop_last().len() - trail_ws(s.drop_last())) =~= s.take(
            s.len() - trail_ws(s),
        ));
        assert forall|i: int| s.len() - trail_ws(s) <= i < s.len() implies is_ws(
            #[trigger] s[i],
        ) by {
            if i < s.len() - 1 {
                assert(s[i] == s.drop_last()[i]);
            }
        }
    } else {
        assert(s.take(s.len() as int) =~= s);
    }
}

/// Executable `str::trim` on a character vector.
pub fn trim_chars(s: &[char]) -> (r: Vec<char>)
    ensures
        r@ == trim(s@),
{
    proof {
        lemma_trim_start(s@);
        lemma_trim_end(trim_start(s@));
    }
    let mut lo: usize = 0;
    while lo < s.len() && is_whitespace(s[lo])
        invariant
            lo <= lead_ws(s@),
            lead_ws(s@) <= s@.len(),
            forall|i: int| 0 <= i < lead_ws(s@) ==> is_ws(#[trigger] s@[i]),
            lead_ws(s@) < s@.len() ==> !is_ws(s@[lead_ws(s@) as int]),
        decreases s.len() - lo,
    {
        lo = lo + 1;
    }
    assert(lo == lead_ws(s@));
    let mut hi: usize = s.len();
    let ghost t = trim_start(s@);
    assert(t =~= s@.skip(lo as int));
    while hi > lo && is_whitespace(s[hi - 1])
        invariant
            lo <= hi <= s.len(),
            t == s@.skip(lo as int),
            hi - lo >= t.len() - trail_ws(t),
            trail_ws(t) <= t.len(),
            forall|i: int| t.len() - trail_ws(t) <= i < t.len() ==> is_ws(#[trigger] t[i]),
            trail_ws(t) < t.len() ==> !is_ws(t[t.len() - trail_ws(t) - 1]),
        decreases hi,
    {
        assert(t[hi - 1 - lo] == s@[hi - 1]);
        hi = hi - 1;
    }
    if hi > lo {
        assert(t[hi - 1 - lo] == s@[hi - 1]);
    }
    assert(hi - lo == t.len() - trail_ws(t));
    let r = slice_vec(s, lo, hi);
    assert(r@ =~= trim_end(t));
    r
}

/// Executable `str::trim_end` on a character vector.
pub fn trim_chars_end(s: &[char]) -> (r: Vec<char>)
    ensures
        r@ == trim_end(s@),
{
    proof {
        lemma_trim_end(s@);
    }
    let mut hi: usize = s.len();
    while hi > 0 && is_whitespace(s[hi - 1])
        invariant
            hi <= s.len(),
            hi >= s@.len() - trail_ws(s@),
            trail_ws(s@) <= s@.len(),
            forall|i: int| s@.len() - trail_ws(s@) <= i < s@.len() ==> is_ws(#[trigger] s@[i]),
            trail_ws(s@) < s@.len() ==> !is_ws(s@[s@.len() - trail_ws(s@) - 1]),
        decreases hi,
    {
        hi = hi - 1;
    }
    assert(hi == s@.len() - trail_ws(s@));
    slice_vec(s, 0, hi)
}

/// A copy of `s[lo..hi]`.
pub fn slice_vec(s: &[char], lo: usize, hi: usize) -> (r: Vec<char>)
    requires
        lo <= hi <= s.len(),
    ensures
        r@ == s@.subrange(lo as int, hi as int),
{
    let mut r: Vec<char> = Vec::new();
    let mut i = lo;
    while i < hi
        invariant
            lo <= i <= hi <= s.len(),
            r@ == s@.subrange(lo as int, i as int),
        decreases hi - i,
    {
        r.push(s[i]);
        i = i + 1;
    }
    r
}

// ── Prefixes and searching ────────────────────────────────────────────────

/// `s` begins with `p`.
pub open spec fn starts_with(s: Seq<char>, p: Seq<char>) -> bool {
    p.len() <= s.len() && s.take(p.len() as int) == p
}

/// `s` ends with `p`.
pub open spec fn ends_with(s: Seq<char>, p: Seq<char>) -> bool {
    p.len() <= s.len() && s.skip(s.len() - p.len()) == p
}

/// `needle` occurs in `hay` at position `i`.
pub open spec fn occurs_at(hay: Seq<char>, needle: Seq<char>, i: int) -> bool {
    0 <= i && i + needle.len() <= hay.len() && hay.subrange(i, i + needle.len()) == needle
}

/// `str::find` from position `from`: the first position at or after `from`
/// where `needle` occurs.
#[verifier::opaque]
pub open spec fn find_from(hay: Seq<char>, needle: Seq<char>, from: int) -> Option<int> {
    if exists|i: int| from <= i && #[trigger] occurs_at(hay, needle, i) {
        Some(choose|i: int| from <= i && occurs_at(hay, needle, i) && forall|j: int|
            from <= j < i ==> !#[trigger] occurs_at(hay, needle, j))
    } else {
        None
    }
}

/// `s` begins with `p`.
pub fn has_prefix(s: &[char], p: &[char]) -> (b: bool)
    ensures
        b == starts_with(s@, p@),
{
    if p.len() > s.len() {
        return false;
    }
    let mut i: usize = 0;
    while i < p.len()
        invariant
            p.len() <= s.len(),
            i <= p.len(),
            forall|j: int| 0 <= j < i ==> s@[j] == p@[j],
        decreases p.len() - i,
    {
        if s[i] != p[i] {
            assert(s@.take(p.len() as int)[i as int] != p@[i as int]);
            return false;
        }
        i = i + 1;
    }
    assert(s@.take(p.len() as int) =~= p@);
    true
}

/// `needle` occurs in `hay` at position `at`.
pub fn matches_at(hay: &[char], needle: &[char], at: usize) -> (b: bool)
    ensures
        b == occurs_at(hay@, needle@, at as int),
{
    if at > hay.len() || needle.len() > hay.len() - at {
        return false;
    }
    let mut i: usize = 0;
    while i < needle.len()
        invariant
            at + needle.len() <= hay.len(),
            i <= needle.len(),
            forall|j: int| 0 <= j < i ==> hay@[at + j] == needle@[j],
        decreases needle.len() - i,
    {
        if hay[at + i] != needle[i] {
            assert(hay@.subrange(at as int, at + needle.len())[i as int] != needle@[i as int]);
            return false;
        }
        i = i + 1;
    }
    assert(hay@.subrange(at as int, at + needle.len()) =~= needle@);
    true
}

proof fn lemma_find_from_some(hay: Seq<char>, needle: Seq<char>, from: int, i: int)
    requires
        from <= i,
        occurs_at(hay, needle, i),
        forall|j: int| from <= j < i ==> !#[trigger] occurs_at(hay, needle, j),
    ensures
        find_from(hay, needle, from) == Some(i),
{
    reveal(find_from);
    let k = choose|k: int| from <= k && occurs_at(hay, needle, k) && forall|j: int|
        from <= j < k ==> !#[trigger] occurs_at(hay, needle, j);
    assert(k == i) by {
        if k < i {
            assert(!occurs_at(hay, needle, k));
        }
        if i < k {
            assert(!occurs_at(hay, needle, i));
        }
    }
}

proof fn lemma_find_from_none(hay: Seq<char>, needle: Seq<char>, from: int)
    requires
        forall|j: int| from <= j ==> !#[trigger] occurs_at(hay, needle, j),
    ensures
        find_from(hay, needle, from) is None,
{
    reveal(find_from);
}

/// The first position at or after `from` where `needle` occurs in `hay`.
pub fn find_chars(hay: &[char], needle: &[char], from: usize) -> (r: Option<usize>)
    ensures
        r matches Some(i) ==> find_from(hay@, needle@, from as int) == Some(i as int) && from <= i
            && occurs_at(hay@, needle@, i as int),
        r is None ==> find_from(hay@, needle@, from as int) is None,
{
    if needle.len() == 0 {
        if from <= hay.len() {
            assert(hay@.subrange(from as int, from as int) =~= needle@);
            proof {
                lemma_find_from_some(hay@, needle@, from as int, from as int);
            }
            return Some(from);
        }
        proof {
            lemma_find_from_none(hay@, needle@, from as int);
        }
        return None;
    }
    let mut i = from;
    while i < hay.len()
        invariant
            from <= i,
            forall|j: int| from <= j < i ==> !#[trigger] occurs_at(hay@, needle@, j),
        decreases hay.len() - i,
    {
        if matches_at(hay, needle, i) {
            proof {
                lemma_find_from_some(hay@, needle@, from as int, i as int);
            }
            return Some(i);
        }
        i = i + 1;
    }
    assert forall|j: int| from <= j implies !#[trigger] occurs_at(hay@, needle@, j) by {
        if j >= i {
            assert(j + needle@.len() > hay@.len());
        }
    }
    proof {
        lemma_find_from_none(hay@, needle@, from as int);
    }
    None
}

/// What `find_from` returns is a position at or after `from` where
/// `needle` occurs.
pub proof fn lemma_find_from_result(hay: Seq<char>, needle: Seq<char>, from: int)
    ensures
        find_from(hay, needle, from) matches Some(i) ==> from <= i && occurs_at(hay, needle, i),
{
    reveal(find_from);
    if exists|i: int| from <= i && #[trigger] occurs_at(hay, needle, i) {
        let i = choose|i: int| from <= i && #[trigger] occurs_at(hay, needle, i);
        lemma_first_occurrence(hay, needle, from, i);
    }
}

proof fn lemma_first_occurrence(hay: Seq<char>, needle: Seq<char>, from: int, i: int)
    requires
        from <= i,
        occurs_at(hay, needle, i),
    ensures
        exists|k: int| from <= k && occurs_at(hay, needle, k) && forall|j: int|
            from <= j < k ==> !#[trigger] occurs_at(hay, needle, j),
    decreases i - from,
{
    if exists|j: int| from <= j < i && #[trigger] occurs_at(hay, needle, j) {
        let j = choose|j: int| from <= j < i && #[trigger] occurs_at(hay, needle, j);
        lemma_first_occurrence(hay, needle, from, j);
    } else {
        assert(from <= i && occurs_at(hay, needle, i) && forall|j: int|
            from <= j < i ==> !#[trigger] occurs_at(hay, needle, j));
    }
}

/// The last position where `needle` occurs in `hay` (`str::rfind`).
pub open spec fn rfind(hay: Seq<char>, needle: Seq<char>) -> Option<int> {
    if exists|i: int| #[trigger] occurs_at(hay, needle, i) {
        Some(choose|i: int| occurs_at(hay, needle, i) && forall|j: int|
            i < j ==> !#[trigger] occurs_at(hay, needle, j))
    } else {
        None
    }
}

/// Executable `rfind`.
pub fn rfind_chars(hay: &[char], needle: &[char]) -> (r: Option<usize>)
    ensures
        r matches Some(i) ==> rfind(hay@, needle@) == Some(i as int) && occurs_at(
            hay@,
            needle@,
            i as int,
        ),
        r is None ==> rfind(hay@, needle@) is None,
{
    if needle.len() > hay.len() {
        assert forall|j: int| !#[trigger] occurs_at(hay@, needle@, j) by {}
        return None;
    }
    let mut i: usize = hay.len() - needle.len();
    loop
        invariant
            i + needle@.len() <= hay@.len(),
            forall|j: int| i < j ==> !#[trigger] occurs_at(hay@, needle@, j),
        decreases i,
    {
        if matches_at(hay, needle, i) {
            let ghost k = choose|k: int| occurs_at(hay@, needle@, k) && forall|j: int|
                k < j ==> !#[trigger] occurs_at(hay@, needle@, j);
            assert(k == i) by {
                if k < i {
                    assert(!occurs_at(hay@, needle@, i as int));
                }
            }
            return Some(i);
        }
        if i == 0 {
            assert forall|j: int| !#[trigger] occurs_at(hay@, needle@, j) by {
                if j < 0 {
                } else if j == 0 {
                }
            }
            return None;
        }
        i = i - 1;
    }
}

/// `s` with every occurrence of `pat`, scanned from the left without
/// overlap, replaced by `rep` (`str::replace` for a non-empty `pat`).
pub open spec fn replace_all(s: Seq<char>, pat: Seq<char>, rep: Seq<char>) -> Seq<char>
    decreases s.len(),
{
    if pat.len() == 0 {
        s
    } else {
        match find_from(s, pat, 0) {
            Some(i) => {
                proof {
                    lemma_find_from_result(s, pat, 0);
                }
                s.take(i) + rep + replace_all(s.skip(i + pat.len()), pat, rep)
            },
            None => s,
        }
    }
}

/// Executable `replace_all`.
pub fn replace_chars(s: &[char], pat: &[char], rep: &[char]) -> (r: Vec<char>)
    requires
        pat@.len() > 0,
    ensures
        r@ == replace_all(s@, pat@, rep@),
{
    let mut out: Vec<char> = Vec::new();
    let mut rest: Vec<char> = slice_vec(s, 0, s.len());
    assert(rest@ =~= s@);
    loop
        invariant
            pat@.len() > 0,
            out@ + replace_all(rest@, pat@, rep@) == replace_all(s@, pat@, rep@),
        decreases rest@.len(),
    {
        match find_chars(rest.as_slice(), pat, 0) {
            Some(i) => {
                let n = rest.len();
                assert(i + pat@.len() <= n);
                let head = slice_vec(rest.as_slice(), 0, i);
                let tail = slice_vec(rest.as_slice(), i + pat.len(), n);
                let ghost old_out = out@;
                let ghost old_rest = rest@;
                push_all(&mut out, head.as_slice());
                push_all(&mut out, rep);
                assert(head@ =~= old_rest.take(i as int));
                assert(tail@ =~= old_rest.skip(i + pat@.len()));
                assert(out@ + replace_all(tail@, pat@, rep@) =~= old_out + replace_all(old_rest, pat@, rep@));
                rest = tail;
            },
            None => {
                let ghost old_out = out@;
                push_all(&mut out, rest.as_slice());
                return out;
            },
        }
    }
}

/// Position of the first occurrence of `c` in `s`, if any.
pub open spec fn index_of(s: Seq<char>, c: char) -> Option<int> {
    if exists|i: int| 0 <= i < s.len() && s[i] == c {
        Some(choose|i: int| 0 <= i < s.len() && s[i] == c && forall|j: int| 0 <= j < i ==> s[j] != c)
    } else {
        None
    }
}

/// Executable `index_of`.
pub fn position_of(s: &[char], c: char) -> (r: Option<usize>)
    ensures
        r matches Some(i) ==> index_of(s@, c) == Some(i as int) && i < s@.len() && s@[i as int]
            == c,
        r is None ==> index_of(s@, c) is None,
{
    let mut i: usize = 0;
    while i < s.len()
        invariant
            i <= s.len(),
            forall|j: int| 0 <= j < i ==> s@[j] != c,
        decreases s.len() - i,
    {
        if s[i] == c {
            let ghost k = choose|k: int| 0 <= k < s@.len() && s@[k] == c && forall|j: int|
                0 <= j < k ==> s@[j] != c;
            assert(k == i) by {
                if k < i {
                    assert(s@[k] != c);
                }
                if i < k {
                    assert(s@[i as int] != c);
                }
            }
            return Some(i);
        }
        i = i + 1;
    }
    None
}

// ── Lines ──────────────────────────────────────────────────────────────────

/// A line with one trailing carriage return removed.
pub open spec fn strip_cr(s: Seq<char>) -> Seq<char> {
    if s.len() > 0 && s.last() == '\r' {
        s.drop_last()
    } else {
        s
    }
}

/// Position of the first `\n` in `s`, or `s.len()` when there is none.
pub open spec fn first_nl(s: Seq<char>) -> nat
    decreases s.len(),
{
    if s.len() == 0 {
        0
    } else if s[0] == '\n' {
        0
    } else {
        1 + first_nl(s.drop_first())
    }
}

pub proof fn lemma_first_nl(s: Seq<char>)
    ensures
        first_nl(s) <= s.len(),
        forall|j: int| 0 <= j < first_nl(s) ==> s[j] != '\n',
        first_nl(s) < s.len() ==> s[first_nl(s) as int] == '\n',
    decreases s.len(),
{
    if s.len() > 0 && s[0] != '\n' {
        lemma_first_nl(s.drop_first());
        assert forall|j: int| 0 <= j < first_nl(s) implies s[j] != '\n' by {
            if j > 0 {
                assert(s[j] == s.drop_first()[j - 1]);
            }
        }
    }
}

/// `str::lines`: the text split at `\n`, each piece without its `\r\n` or
/// `\n` terminator; a final terminator does not start an extra empty line.
pub open spec fn lines(s: Seq<char>) -> Seq<Seq<char>>
    decreases s.len(),
{
    if s.len() == 0 {
        seq![]
    } else {
        let i = first_nl(s);
        proof {
            lemma_first_nl(s);
        }
        if i < s.len() {
            seq![strip_cr(s.take(i as int))] + lines(s.skip(i as int + 1))
        } else {
            seq![s]
        }
    }
}

/// Executable `str::lines` over a character vector.
pub fn split_lines(s: &[char]) -> (r: Vec<Vec<char>>)
    ensures
        r@.len() == lines(s@).len(),
        forall|i: int| 0 <= i < r@.len() ==> (#[trigger] r@[i])@ == lines(s@)[i],
{
    let mut r: Vec<Vec<char>> = Vec::new();
    let mut start: usize = 0;
    let ghost mut acc: Seq<Seq<char>> = seq![];
    assert(s@.skip(0) =~= s@);
    while start < s.len()
        invariant
            start <= s.len(),
            r@.len() == acc.len(),
            forall|i: int| 0 <= i < r@.len() ==> (#[trigger] r@[i])@ == acc[i],
            lines(s@) == acc + lines(s@.skip(start as int)),
        decreases s.len() - start,
    {
        let ghost rest = s@.skip(start as int);
        proof {
            lemma_first_nl(rest);
        }
        let mut end = start;
        while end < s.len() && s[end] != '\n'
            invariant
                start <= end <= s.len(),
                rest == s@.skip(start as int),
                forall|j: int| start <= j < end ==> s@[j] != '\n',
            decreases s.len() - end,
        {
            end = end + 1;
        }
        let mut piece = slice_vec(s, start, end);
        assert(first_nl(rest) == end - start) by {
            if first_nl(rest) < end - start {
                assert(rest[first_nl(rest) as int] == s@[start + first_nl(rest)]);
            }
            if first_nl(rest) > end - start {
                assert(rest[end - start] == s@[end as int]);
            }
        }
        if end < s.len() {
            assert(rest.take(end - start) =~= piece@);
            if piece.len() > 0 && piece[piece.len() - 1] == '\r' {
                piece.pop();
            }
            assert(rest.skip(end - start + 1) =~= s@.skip(end + 1));
            proof {
                acc = acc.push(piece@);
            }
            r.push(piece);
            assert(lines(s@) =~= acc + lines(s@.skip(end + 1)));
            start = end + 1;
        } else {
            assert(rest =~= piece@);
            proof {
                acc = acc.push(piece@);
            }
            r.push(piece);
            assert(s@.skip(s.len() as int) =~= Seq::<char>::empty());
            assert(lines(s@) =~= acc + lines(s@.skip(s.len() as int)));
            start = s.len();
        }
    }
    assert(s@.skip(start as int) =~= Seq::<char>::empty());
    assert(lines(s@) =~= acc);
    r
}

/// The model of a vector of character vectors.
pub open spec fn lines_view(v: Seq<Vec<char>>) -> Seq<Seq<char>> {
    Seq::new(v.len(), |i: int| v[i]@)
}

/// The lines of `source` (`str::lines`).
pub fn source_lines(source: &str) -> (r: Vec<Vec<char>>)
    ensures
        lines_view(r@) == lines(source@),
{
    let s = chars_of(source);
    let r = split_lines(s.as_slice());
    assert(lines_view(r@) =~= lines(source@));
    r
}

/// The trimmed line `i`.
pub fn trimmed_line(ls: &Vec<Vec<char>>, i: usize) -> (r: Vec<char>)
    requires
        i < ls@.len(),
    ensures
        r@ == trim(lines_view(ls@)[i as int]),
{
    trim_chars(ls[i].as_slice())
}

/// `t` is blank or a `%%` comment line.
pub open spec fn is_skippable(t: Seq<char>) -> bool {
    t.len() == 0 || starts_with(t, "%%"@)
}

/// Executable `is_skippable`.
pub fn skippable(t: &[char]) -> (b: bool)
    ensures
        b == is_skippable(t@),
{
    let pc = chars_of("%%");
    t.len() == 0 || has_prefix(t, pc.as_slice())
}

// ── Words ──────────────────────────────────────────────────────────────────

/// Length of the run of non-whitespace characters that starts `s`.
pub open spec fn word_len(s: Seq<char>) -> nat
    decreases s.len(),
{
    if s.len() == 0 || is_ws(s[0]) {
        0
    } else {
        1 + word_len(s.drop_first())
    }
}

pub proof fn lemma_word_len(s: Seq<char>)
    ensures
        word_len(s) <= s.len(),
        forall|j: int| 0 <= j < word_len(s) ==> !is_ws(#[trigger] s[j]),
        word_len(s) < s.len() ==> is_ws(s[word_len(s) as int]),
    decreases s.len(),
{
    if s.len() > 0 && !is_ws(s[0]) {
        lemma_word_len(s.drop_first());
        assert forall|j: int| 0 <= j < word_len(s) implies !is_ws(#[trigger] s[j]) by {
            if j > 0 {
                assert(s[j] == s.drop_first()[j - 1]);
            }
        }
    }
}

/// `str::split_whitespace`: the maximal runs of non-whitespace characters.
pub open spec fn words(s: Seq<char>) -> Seq<Seq<char>>
    decreases s.len(),
{
    let t = trim_start(s);
    proof {
        lemma_trim_start(s);
        lemma_word_len(t);
    }
    if t.len() == 0 {
        seq![]
    } else {
        let w = word_len(t);
        seq![t.take(w as int)] + words(t.skip(w as int))
    }
}

/// Executable `str::split_whitespace`.
pub fn split_words(s: &[char]) -> (r: Vec<Vec<char>>)
    ensures
        r@.len() == words(s@).len(),
        forall|i: int| 0 <= i < r@.len() ==> (#[trigger] r@[i])@ == words(s@)[i],
{
    let mut r: Vec<Vec<char>> = Vec::new();
    let ghost mut acc: Seq<Seq<char>> = seq![];
    let mut i: usize = 0;
    assert(s@.skip(0) =~= s@);
    while i < s.len()
        invariant
            i <= s.len(),
            r@.len() == acc.len(),
            forall|k: int| 0 <= k < r@.len() ==> (#[trigger] r@[k])@ == acc[k],
            words(s@) == acc + words(s@.skip(i as int)),
        decreases s.len() - i,
    {
        let ghost rest = s@.skip(i as int);
        proof {
            lemma_trim_start(rest);
        }
        let mut j = i;
        while j < s.len() && is_whitespace(s[j])
            invariant
                i <= j <= s.len(),
                rest == s@.skip(i as int),
                j - i <= lead_ws(rest),
                lead_ws(rest) <= rest.len(),
                forall|m: int| 0 <= m < lead_ws(rest) ==> is_ws(#[trigger] rest[m]),
                lead_ws(rest) < rest.len() ==> !is_ws(rest[lead_ws(rest) as int]),
            decreases s.len() - j,
        {
            assert(rest[j - i] == s@[j as int]);
            j = j + 1;
        }
        if j < s.len() {
            assert(rest[j - i] == s@[j as int]);
        }
        assert(j - i == lead_ws(rest));
        let ghost t = trim_start(rest);
        assert(t =~= s@.skip(j as int));
        if j == s.len() {
            assert(t.len() == 0);
            assert(words(rest) =~= Seq::<Seq<char>>::empty());
            i = j;
        } else {
            proof {
                lemma_word_len(t);
            }
            let mut k = j;
            while k < s.len() && !is_whitespace(s[k])
                invariant
                    j <= k <= s.len(),
                    t == s@.skip(j as int),
                    k - j <= word_len(t),
                    word_len(t) <= t.len(),
                    forall|m: int| 0 <= m < word_len(t) ==> !is_ws(#[trigger] t[m]),
                    word_len(t) < t.len() ==> is_ws(t[word_len(t) as int]),
                decreases s.len() - k,
            {
                assert(t[k - j] == s@[k as int]);
                k = k + 1;
            }
            if k < s.len() {
                assert(t[k - j] == s@[k as int]);
            }
            assert(k - j == word_len(t));
            let w = slice_vec(s, j, k);
            assert(w@ =~= t.take((k - j) as int));
            assert(t.skip((k - j) as int) =~= s@.skip(k as int));
            proof {
                acc = acc.push(w@);
            }
            r.push(w);
            assert(words(s@) =~= acc + words(s@.skip(k as int)));
            i = k;
        }
    }
    assert(s@.skip(i as int) =~= Seq::<char>::empty());
    assert(words(s@.skip(i as int)) =~= Seq::<Seq<char>>::empty());
    assert(words(s@) =~= acc);
    r
}

/// `str::split(sep)` on a character: the pieces between separators,
/// including empty ones.
#[verifier::opaque]
pub open spec fn split_on(s: Seq<char>, sep: char) -> Seq<Seq<char>>
    decreases s.len(),
{
    match index_of(s, sep) {
        Some(i) => if 0 <= i < s.len() {
            seq![s.take(i)] + split_on(s.skip(i + 1), sep)
        } else {
            seq![s]
        },
        None => seq![s],
    }
}

/// Unfolds `split_on` at a separator found at `i`.
pub proof fn lemma_split_some(s: Seq<char>, sep: char, i: int)
    requires
        index_of(s, sep) == Some(i),
        0 <= i < s.len(),
    ensures
        split_on(s, sep) == seq![s.take(i)] + split_on(s.skip(i + 1), sep),
{
    reveal(split_on);
}

/// Unfolds `split_on` when no separator is left.
pub proof fn lemma_split_none(s: Seq<char>, sep: char)
    requires
        index_of(s, sep) is None,
    ensures
        split_on(s, sep) == seq![s],
{
    reveal(split_on);
}

/// The pieces of `s` between occurrences of `sep` (`str::split`).
#[verifier::rlimit(40)]
pub fn split_chars(s: &[char], sep: char) -> (r: Vec<Vec<char>>)
    ensures
        lines_view(r@) == split_on(s@, sep),
{
    let mut out: Vec<Vec<char>> = Vec::new();
    let mut rest: Vec<char> = slice_vec(s, 0, s.len());
    assert(rest@ =~= s@);
    assert(lines_view(out@) + split_on(rest@, sep) =~= split_on(s@, sep));
    loop
        invariant
            lines_view(out@) + split_on(rest@, sep) == split_on(s@, sep),
        decreases rest@.len(),
    {
        let ghost old_out = out@;
        let ghost old_rest = rest@;
        match position_of(rest.as_slice(), sep) {
            Some(i) => {
                let head = slice_vec(rest.as_slice(), 0, i);
                let n = rest.len();
                let tail = slice_vec(rest.as_slice(), i + 1, n);
                out.push(head);
                proof {
                    lemma_split_some(old_rest, sep, i as int);
                    assert(lines_view(out@) =~= lines_view(old_out).push(old_rest.take(i as int)));
                    assert(tail@ =~= old_rest.skip(i + 1));
                    assert(lines_view(out@) + split_on(tail@, sep) =~= lines_view(old_out)
                        + split_on(old_rest, sep));
                }
                rest = tail;
            },
            None => {
                out.push(rest);
                proof {
                    lemma_split_none(old_rest, sep);
                    assert(lines_view(out@) =~= lines_view(old_out) + seq![old_rest]);
                }
                return out;
            },
        }
    }
}

// ── ASCII case ─────────────────────────────────────────────────────────────

/// `char::to_ascii_lowercase`.
pub open spec fn ascii_lower(c: char) -> char {
    if 'A' <= c <= 'Z' {
        ((c as u32) + 32) as char
    } else {
        c
    }
}

/// Executable `char::to_ascii_lowercase`.
pub fn lower_ascii(c: char) -> (r: char)
    ensures
        r == ascii_lower(c),
{
    if 'A' <= c && c <= 'Z' {
        let b: u8 = c as u8;
        assert(b as u32 == c as u32);
        (b + 32) as char
    } else {
        c
    }
}

/// `s` begins with `p` when ASCII letters are compared without case.
pub open spec fn starts_with_ci(s: Seq<char>, p: Seq<char>) -> bool {
    p.len() <= s.len() && forall|i: int| 0 <= i < p.len() ==> ascii_lower(#[trigger] s[i])
        == ascii_lower(p[i])
}

/// `s` and `p` are equal when ASCII letters are compared without case
/// (`str::eq_ignore_ascii_case`).
pub open spec fn eq_ci(s: Seq<char>, p: Seq<char>) -> bool {
    s.len() == p.len() && starts_with_ci(s, p)
}

/// Executable `starts_with_ci`.
pub fn has_prefix_ci(s: &[char], p: &[char]) -> (b: bool)
    ensures
        b == starts_with_ci(s@, p@),
{
    if p.len() > s.len() {
        return false;
    }
    let mut i: usize = 0;
    while i < p.len()
        invariant
            p.len() <= s.len(),
            i <= p.len(),
            forall|j: int| 0 <= j < i ==> ascii_lower(#[trigger] s@[j]) == ascii_lower(p@[j]),
        decreases p.len() - i,
    {
        if lower_ascii(s[i]) != lower_ascii(p[i]) {
            return false;
        }
        i = i + 1;
    }
    true
}

// ── Decimal numerals ───────────────────────────────────────────────────────

/// The decimal numeral of `n`, without leading zeros.
pub open spec fn decimal(n: nat) -> Seq<char>
    decreases n,
{
    if n < 10 {
        seq![digit_char((n % 10) as nat)]
    } else {
        decimal(n / 10).push(digit_char((n % 10) as nat))
    }
}

/// The ASCII digit for `d < 10`.
pub open spec fn digit_char(d: nat) -> char {
    (('0' as u32) + d) as char
}

/// The decimal numeral of `n`.
pub fn decimal_chars(n: usize) -> (r: Vec<char>)
    ensures
        r@ == decimal(n as nat),
    decreases n,
{
    let d: u32 = (n % 10) as u32;
    let c = char_from_digit(d);
    if n < 10 {
        let mut r: Vec<char> = Vec::new();
        r.push(c);
        r
    } else {
        let mut r = decimal_chars(n / 10);
        r.push(c);
        r
    }
}

/// The ASCII digit for `d < 10`.
pub fn char_from_digit(d: u32) -> (c: char)
    requires
        d < 10,
    ensures
        c == digit_char(d as nat),
{
    let c: char = match d {
        0 => '0',
        1 => '1',
        2 => '2',
        3 => '3',
        4 => '4',
        5 => '5',
        6 => '6',
        7 => '7',
        8 => '8',
        _ => '9',
    };
    c
}

/// Appends the characters of `src` to `dst`.
pub fn push_all(dst: &mut Vec<char>, src: &[char])
    ensures
        final(dst)@ == old(dst)@ + src@,
{
    let mut i: usize = 0;
    while i < src.len()
        invariant
            i <= src.len(),
            dst@ == old(dst)@ + src@.take(i as int),
        decreases src.len() - i,
    {
        dst.push(src[i]);
        i = i + 1;
        assert(src@.take(i as int) =~= src@.take(i - 1) + seq![src@[i - 1]]);
    }
    assert(src@.take(src.len() as int) =~= src@);
}

/// Appends the characters of `src` to `dst`.
pub fn push_str(dst: &mut Vec<char>, src: &str)
    ensures
        final(dst)@ == old(dst)@ + src@,
{
    let v = chars_of(src);
    push_all(dst, v.as_slice());
}

} // verus!
