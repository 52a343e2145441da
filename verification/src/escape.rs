//! Character escaping for XML/HTML text and attribute values.

use vstd::prelude::*;

verus! {

/// Which characters an escaping replaces.
#[derive(Debug, Clone, Copy, PartialEq, Eq)]
pub enum EscapeSet {
    /// `&`, `<`, `>` (element text).
    Text,
    /// `&`, `<`, `>`, `"` (attribute values and SVG text).
    Attr,
    /// `&`, `<`, `>`, `"`, `'` (full XML escaping).
    Xml,
}

/// The replacement of one character under `set`.
pub open spec fn escape_char(c: char, set: EscapeSet) -> Seq<char> {
    if c == '&' {
        seq!['&', 'a', 'm', 'p', ';']
    } else if c == '<' {
        seq!['&', 'l', 't', ';']
    } else if c == '>' {
        seq!['&', 'g', 't', ';']
    } else if c == '"' && !(set is Text) {
        seq!['&', 'q', 'u', 'o', 't', ';']
    } else if c == '\'' && set is Xml {
        seq!['&', 'a', 'p', 'o', 's', ';']
    } else {
        seq![c]
    }
}

/// `s` with every character replaced by its escape under `set` — the same
/// text the chain of `str::replace` calls that starts with `&` produces.
pub open spec fn escape(s: Seq<char>, set: EscapeSet) -> Seq<char>
    decreases s.len(),
{
    if s.len() == 0 {
        seq![]
    } else {
        escape(s.drop_last(), set) + escape_char(s.last(), set)
    }
}

/// Appends the escape of `c` under `set` to `out`.
fn push_escaped(out: &mut Vec<char>, c: char, set: EscapeSet)
    ensures
        final(out)@ == old(out)@ + escape_char(c, set),
{
    if c == '&' {
        out.push('&');
        out.push('a');
        out.push('m');
        out.push('p');
        out.push(';');
    } else if c == '<' {
        out.push('&');
        out.push('l');
        out.push('t');
        out.push(';');
    } else if c == '>' {
        out.push('&');
        out.push('g');
        out.push('t');
        out.push(';');
    } else if c == '"' && !matches!(set, EscapeSet::Text) {
        out.push('&');
        out.push('q');
        out.push('u');
        out.push('o');
        out.push('t');
        out.push(';');
    } else if c == '\'' && matches!(set, EscapeSet::Xml) {
        out.push('&');
        out.push('a');
        out.push('p');
        out.push('o');
        out.push('s');
        out.push(';');
    } else {
        out.push(c);
    }
    assert(final(out)@ =~= old(out)@ + escape_char(c, set));
}

/// Appends `escape(s, set)` to `out`.
pub fn push_escape(out: &mut Vec<char>, s: &[char], set: EscapeSet)
    ensures
        final(out)@ == old(out)@ + escape(s@, set),
{
    let mut i: usize = 0;
    while i < s.len()
        invariant
            i <= s.len(),
            out@ == old(out)@ + escape(s@.take(i as int), set),
        decreases s.len() - i,
    {
        push_escaped(out, s[i], set);
        assert(s@.take(i + 1).drop_last() =~= s@.take(i as int));
        i = i + 1;
    }
    assert(s@.take(s.len() as int) =~= s@);
}

/// `escape(s, set)` as a new vector.
pub fn escape_chars(s: &[char], set: EscapeSet) -> (r: Vec<char>)
    ensures
        r@ == escape(s@, set),
{
    let mut out: Vec<char> = Vec::new();
    push_escape(&mut out, s, set);
    out
}

pub proof fn lemma_escape_append(a: Seq<char>, b: Seq<char>, set: EscapeSet)
    ensures
        escape(a + b, set) == escape(a, set) + escape(b, set),
    decreases b.len(),
{
    if b.len() == 0 {
        assert(a + b =~= a);
    } else {
        lemma_escape_append(a, b.drop_last(), set);
        assert((a + b).drop_last() =~= a + b.drop_last());
    }
}

/// Law: escaping leaves text without `&`, `<`, `>`, `"`, `'` unchanged.
pub proof fn law_escape_plain_text_unchanged(s: Seq<char>, set: EscapeSet)
    requires
        forall|i: int| #![trigger s[i]] 0 <= i < s.len() ==> s[i] != '&' && s[i] != '<' && s[i]
            != '>' && s[i] != '"' && s[i] != '\'',
    ensures
        escape(s, set) == s,
    decreases s.len(),
{
    if s.len() > 0 {
        law_escape_plain_text_unchanged(s.drop_last(), set);
        assert(s.drop_last().push(s.last()) =~= s);
    }
}

/// Law: escaped text holds no `<`, `>` or (under `Attr` and `Xml`) `"`, so
/// it cannot close the element or attribute it is placed in.
pub proof fn law_escape_is_inert(s: Seq<char>, set: EscapeSet)
    ensures
        forall|i: int| #![trigger escape(s, set)[i]] 0 <= i < escape(s, set).len() ==> escape(s, set)[i]
            != '<' && escape(s, set)[i] != '>' && (!(set is Text) ==> escape(s, set)[i] != '"'),
    decreases s.len(),
{
    if s.len() > 0 {
        law_escape_is_inert(s.drop_last(), set);
        let p = escape(s.drop_last(), set);
        let q = escape_char(s.last(), set);
        assert forall|i: int| #![trigger (p + q)[i]] 0 <= i < (p + q).len() implies (p + q)[i] != '<'
            && (p + q)[i] != '>' && (!(set is Text) ==> (p + q)[i] != '"') by {
            if i >= p.len() {
                assert((p + q)[i] == q[i - p.len()]);
            } else {
                assert((p + q)[i] == p[i]);
            }
        }
    }
}

} // verus!
