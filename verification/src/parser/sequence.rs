//! Sequence diagram parser.
//!
//! Supported syntax, one statement per line:
//! - `participant <alias>` / `participant <alias> as <display>`
//! - `actor <alias>` / `actor <alias> as <display>`
//! - `<from> <arrow> <to> : <text>` with the arrows `->>`, `-->`, `->`,
//!   `-->>`, `-x`, `--x`, `--)`, `-)`
//! - `Note over|left of|right of <participant(s)> : <text>`
//! - `activate <participant>` / `deactivate <participant>`
//! - `loop <label>` … `end`, `opt <label>` … `end`
//! - `alt <label>` … `else <label>` … `end`
//! - `par <label>` … `and <label>` … `end`
//!
//! Participants keep the order of their first mention; a later declaration
//! of the same alias replaces its display name and kind; message endpoints
//! that were never declared are registered as plain participants.

use crate::parser::types::{
    ArrowType, Block, Message, Note, NotePosition, Participant, ParticipantKind,
    ParticipantModel, SequenceDiagram, SequenceStatement, StmtModel, cases_model,
    participant_model, participants_model, stmt_model, stmts_model, strings_model,
};
use crate::svg::MermaidRenderError;
use crate::text::{
    chars_of, find_chars, find_from, has_prefix, has_prefix_ci, index_of, is_skippable, lines,
    lemma_split_none, lemma_split_some, lines_view, owned, position_of, skippable, slice_vec, source_lines, split_on, starts_with,
    starts_with_ci, string_of, trim, trim_chars, trimmed_line,
};
use vstd::prelude::*;

verus! {

// ── Participants ───────────────────────────────────────────────────────────

/// Position of the last participant with alias `alias`.
pub open spec fn part_pos(ps: Seq<ParticipantModel>, alias: Seq<char>) -> Option<int>
    decreases ps.len(),
{
    if ps.len() == 0 {
        None
    } else if ps.last().alias == alias {
        Some(ps.len() - 1)
    } else {
        part_pos(ps.drop_last(), alias)
    }
}

/// A plain participant named only by its alias.
pub open spec fn plain_part(alias: Seq<char>) -> ParticipantModel {
    ParticipantModel { alias, display: alias, kind: ParticipantKind::Participant }
}

/// Registers `alias` as a plain participant unless it is known.
pub open spec fn ensure_part(ps: Seq<ParticipantModel>, alias: Seq<char>) -> Seq<ParticipantModel> {
    match part_pos(ps, alias) {
        Some(_) => ps,
        None => ps.push(plain_part(alias)),
    }
}

/// Declares `p`: replaces the participant with its alias, or appends it.
pub open spec fn declare_part(ps: Seq<ParticipantModel>, p: ParticipantModel) -> Seq<ParticipantModel> {
    match part_pos(ps, p.alias) {
        Some(i) => ps.update(i, p),
        None => ps.push(p),
    }
}

/// The participant declared by `t`, whose keyword takes `kw` characters:
/// `<alias>` or `<alias> as <display>`.
pub open spec fn declared(t: Seq<char>, kw: int, kind: ParticipantKind) -> ParticipantModel {
    let rest = trim(t.skip(kw));
    match find_from(rest, " as "@, 0) {
        Some(p) => ParticipantModel {
            alias: trim(rest.take(p)),
            display: trim(rest.skip(p + " as "@.len())),
            kind,
        },
        None => ParticipantModel { alias: rest, display: rest, kind },
    }
}

// ── Messages and notes ─────────────────────────────────────────────────────

/// The arrows, in the order they are looked for.
pub open spec fn arrow_text(k: int) -> Seq<char> {
    if k == 0 {
        "-->>"@
    } else if k == 1 {
        "->>"@
    } else if k == 2 {
        "-->"@
    } else if k == 3 {
        "->"@
    } else if k == 4 {
        "--x"@
    } else if k == 5 {
        "-x"@
    } else if k == 6 {
        "--)"@
    } else {
        "-)"@
    }
}

/// The arrow type of `arrow_text(k)`.
pub open spec fn arrow_type(k: int) -> ArrowType {
    if k == 0 {
        ArrowType::DottedAsync
    } else if k == 1 {
        ArrowType::SolidAsync
    } else if k == 2 {
        ArrowType::Dotted
    } else if k == 3 {
        ArrowType::Solid
    } else if k == 4 {
        ArrowType::DotCross
    } else if k == 5 {
        ArrowType::Cross
    } else if k == 6 {
        ArrowType::DotPoint
    } else {
        ArrowType::Point
    }
}

/// The message `t` states with the arrow found at `p`, `w` characters wide:
/// the trimmed text before it, then the text after it split at its first
/// `:` into receiver and message text (empty without a colon).
pub open spec fn message_parts(t: Seq<char>, p: int, w: int, arrow: ArrowType) -> StmtModel {
    let rest = t.skip(p + w);
    match index_of(rest, ':') {
        Some(c) => StmtModel::Message {
            from: trim(t.take(p)),
            to: trim(rest.take(c)),
            text: trim(rest.skip(c + 1)),
            arrow,
        },
        None => StmtModel::Message { from: trim(t.take(p)), to: trim(rest), text: seq![], arrow },
    }
}

/// The part of a message line where its arrow stands: the text before its
/// first `:` (the message text after it may hold arrows of its own).
pub open spec fn arrow_zone(t: Seq<char>) -> Seq<char> {
    match index_of(t, ':') {
        Some(c) => t.take(c),
        None => t,
    }
}

/// The message `t` states, looking for the arrows from the `k`-th on: the
/// first arrow that occurs before the line's first `:` decides.
pub open spec fn message_from(t: Seq<char>, k: int) -> Option<StmtModel>
    decreases 8 - k,
{
    if k < 0 || k >= 8 {
        None
    } else {
        match find_from(arrow_zone(t), arrow_text(k), 0) {
            Some(p) => Some(message_parts(t, p, arrow_text(k).len() as int, arrow_type(k))),
            None => message_from(t, k + 1),
        }
    }
}

/// Trims every piece.
pub open spec fn trim_all(ps: Seq<Seq<char>>) -> Seq<Seq<char>> {
    Seq::new(ps.len(), |i: int| trim(ps[i]))
}

/// The note whose participants and text follow at `ps`:
/// `A[,B…] : text`; `None` without a colon.
pub open spec fn note_rest(ps: Seq<char>, position: NotePosition) -> Option<StmtModel> {
    match index_of(ps, ':') {
        Some(c) => Some(
            StmtModel::Note {
                position,
                participants: trim_all(split_on(trim(ps.take(c)), ',')),
                text: trim(ps.skip(c + 1)),
            },
        ),
        None => None,
    }
}

/// The note line `t` (its keywords in any ASCII case).
pub open spec fn note_stmt(t: Seq<char>) -> Option<StmtModel> {
    if starts_with_ci(t, "note over "@) {
        note_rest(t.skip("note over "@.len() as int), NotePosition::Over)
    } else if starts_with_ci(t, "note left of "@) {
        note_rest(t.skip("note left of "@.len() as int), NotePosition::LeftOf)
    } else if starts_with_ci(t, "note right of "@) {
        note_rest(t.skip("note right of "@.len() as int), NotePosition::RightOf)
    } else {
        None
    }
}

// ── Statements and blocks ──────────────────────────────────────────────────

/// A statement as a sequence of zero or one statements.
pub open spec fn opt_seq(o: Option<StmtModel>) -> Seq<StmtModel> {
    match o {
        Some(s) => seq![s],
        None => seq![],
    }
}

/// Where reading goes on after the statement at `pos` left off at `p2`:
/// the next line, never past the end of `ls`.
pub open spec fn step(ls: Seq<Seq<char>>, pos: int, p2: int) -> int {
    if p2 < pos {
        pos + 1
    } else if p2 < ls.len() {
        p2 + 1
    } else {
        ls.len() as int
    }
}

/// The statement on line `pos`: the statement it yields (declarations and
/// block separators yield none), the line it ends on (a block ends on its
/// `end` line, or at the end of `ls`), and the participants after it;
/// `None` when it does not parse.
pub open spec fn stmt(ls: Seq<Seq<char>>, pos: int, ps: Seq<ParticipantModel>) -> Option<
    (Option<StmtModel>, int, Seq<ParticipantModel>),
>
    decreases ls.len() + 1 - pos, 0nat,
{
    if pos < 0 || pos >= ls.len() {
        None
    } else {
        let t = trim(ls[pos]);
        if starts_with(t, "participant "@) {
            let p = declared(t, "participant "@.len() as int, ParticipantKind::Participant);
            Some((None, pos, declare_part(ps, p)))
        } else if starts_with(t, "actor "@) {
            let p = declared(t, "actor "@.len() as int, ParticipantKind::Actor);
            Some((None, pos, declare_part(ps, p)))
        } else if starts_with(t, "activate "@) {
            Some((Some(StmtModel::Activate(trim(t.skip("activate "@.len() as int)))), pos, ps))
        } else if starts_with(t, "deactivate "@) {
            Some((Some(StmtModel::Deactivate(trim(t.skip("deactivate "@.len() as int)))), pos, ps))
        } else if starts_with_ci(t, "note "@) {
            match note_stmt(t) {
                Some(n) => Some((Some(n), pos, ps)),
                None => None,
            }
        } else if starts_with(t, "loop "@) {
            match body(ls, pos + 1, ps, seq![]) {
                Some((b, p2, ps2)) => Some(
                    (
                        Some(StmtModel::Loop { label: trim(t.skip("loop "@.len() as int)), body: b }),
                        p2,
                        ps2,
                    ),
                ),
                None => None,
            }
        } else if starts_with(t, "alt "@) {
            match cases(ls, pos + 1, ps, "else "@, seq![], trim(t.skip("alt "@.len() as int)), seq![]) {
                Some((cs, p2, ps2)) => Some((Some(StmtModel::Alt { cases: cs }), p2, ps2)),
                None => None,
            }
        } else if starts_with(t, "opt "@) {
            match body(ls, pos + 1, ps, seq![]) {
                Some((b, p2, ps2)) => Some(
                    (
                        Some(StmtModel::Opt { label: trim(t.skip("opt "@.len() as int)), body: b }),
                        p2,
                        ps2,
                    ),
                ),
                None => None,
            }
        } else if starts_with(t, "par "@) {
            match cases(ls, pos + 1, ps, "and "@, seq![], trim(t.skip("par "@.len() as int)), seq![]) {
                Some((cs, p2, ps2)) => Some((Some(StmtModel::Par { sections: cs }), p2, ps2)),
                None => None,
            }
        } else if t == "end"@ || starts_with(t, "else "@) || starts_with(t, "and "@) {
            Some((None, pos, ps))
        } else {
            match message_from(t, 0) {
                Some(m) => Some((Some(m), pos, ensure_part(ensure_part(ps, m->from), m->to))),
                None => None,
            }
        }
    }
}

/// The body of a `loop` or `opt` block from line `pos`, after the
/// statements `acc`: its statements, the line it ends on (the `end` line
/// or the end of `ls`) and the participants after it.
pub open spec fn body(ls: Seq<Seq<char>>, pos: int, ps: Seq<ParticipantModel>, acc: Seq<StmtModel>) -> Option<
    (Seq<StmtModel>, int, Seq<ParticipantModel>),
>
    decreases ls.len() + 1 - pos, 1nat,
{
    if pos < 0 || pos >= ls.len() {
        Some((acc, pos, ps))
    } else {
        let t = trim(ls[pos]);
        if t == "end"@ {
            Some((acc, pos, ps))
        } else if is_skippable(t) {
            body(ls, pos + 1, ps, acc)
        } else {
            match stmt(ls, pos, ps) {
                Some((o, p2, ps2)) => body(ls, step(ls, pos, p2), ps2, acc + opt_seq(o)),
                None => None,
            }
        }
    }
}

/// The sections of an `alt` (separator `else `) or `par` (separator `and `)
/// block from line `pos`: the finished sections `done`, then the section
/// `label` with the statements `cur`. A section is finished by the separator
/// or by `end`; one still open at the end of `ls` is dropped.
pub open spec fn cases(
    ls: Seq<Seq<char>>,
    pos: int,
    ps: Seq<ParticipantModel>,
    sep: Seq<char>,
    done: Seq<(Seq<char>, Seq<StmtModel>)>,
    label: Seq<char>,
    cur: Seq<StmtModel>,
) -> Option<(Seq<(Seq<char>, Seq<StmtModel>)>, int, Seq<ParticipantModel>)>
    decreases ls.len() + 1 - pos, 1nat,
{
    if pos < 0 || pos >= ls.len() {
        Some((done, pos, ps))
    } else {
        let t = trim(ls[pos]);
        if t == "end"@ {
            Some((done.push((label, cur)), pos, ps))
        } else if starts_with(t, sep) {
            cases(ls, pos + 1, ps, sep, done.push((label, cur)), trim(t.skip(sep.len() as int)), seq![])
        } else if is_skippable(t) {
            cases(ls, pos + 1, ps, sep, done, label, cur)
        } else {
            match stmt(ls, pos, ps) {
                Some((o, p2, ps2)) => cases(ls, step(ls, pos, p2), ps2, sep, done, label, cur + opt_seq(o)),
                None => None,
            }
        }
    }
}

/// The top-level statements from line `pos` on, after `acc`, and the
/// participants at the end.
pub open spec fn top(ls: Seq<Seq<char>>, pos: int, ps: Seq<ParticipantModel>, acc: Seq<StmtModel>) -> Option<
    (Seq<StmtModel>, Seq<ParticipantModel>),
>
    decreases ls.len() + 1 - pos,
{
    if pos < 0 || pos >= ls.len() {
        Some((acc, ps))
    } else {
        let t = trim(ls[pos]);
        if is_skippable(t) {
            top(ls, pos + 1, ps, acc)
        } else {
            match stmt(ls, pos, ps) {
                Some((o, p2, ps2)) => top(ls, step(ls, pos, p2), ps2, acc + opt_seq(o)),
                None => None,
            }
        }
    }
}

/// The line after the `sequenceDiagram` header, the first line at or after
/// `pos` that is neither blank nor a comment.
pub open spec fn seq_header(ls: Seq<Seq<char>>, pos: int) -> Option<int>
    decreases ls.len() - pos,
{
    if pos < 0 || pos >= ls.len() {
        None
    } else {
        let t = trim(ls[pos]);
        if is_skippable(t) {
            seq_header(ls, pos + 1)
        } else if starts_with_ci(t, "sequencediagram"@) {
            Some(pos + 1)
        } else {
            None
        }
    }
}

/// The participants and statements `source` describes, or `None` when it
/// does not parse.
pub open spec fn sequence_of(source: Seq<char>) -> Option<(Seq<ParticipantModel>, Seq<StmtModel>)> {
    let ls = lines(source);
    match seq_header(ls, 0) {
        Some(p) => match top(ls, p, seq![], seq![]) {
            Some((ss, ps)) => Some((ps, ss)),
            None => None,
        },
        None => None,
    }
}


// ── Error messages ─────────────────────────────────────────────────────────

/// The message of a note line `t` that does not parse.
pub open spec fn note_error(t: Seq<char>) -> Seq<char> {
    if starts_with_ci(t, "note over "@) || starts_with_ci(t, "note left of "@) || starts_with_ci(
        t,
        "note right of "@,
    ) {
        "note missing colon"@
    } else {
        "invalid note syntax"@
    }
}

/// The message of the statement on line `pos` when it does not parse
/// (meaningful when `stmt(ls, pos, ps)` is `None`): the message of the line
/// that fails, at any depth of nesting.
pub open spec fn stmt_error(ls: Seq<Seq<char>>, pos: int, ps: Seq<ParticipantModel>) -> Seq<char>
    decreases ls.len() + 1 - pos, 0nat,
{
    if pos < 0 || pos >= ls.len() {
        seq![]
    } else {
        let t = trim(ls[pos]);
        if starts_with(t, "participant "@) || starts_with(t, "actor "@) || starts_with(
            t,
            "activate "@,
        ) || starts_with(t, "deactivate "@) {
            seq![]
        } else if starts_with_ci(t, "note "@) {
            note_error(t)
        } else if starts_with(t, "loop "@) {
            body_error(ls, pos + 1, ps, seq![])
        } else if starts_with(t, "alt "@) {
            cases_error(ls, pos + 1, ps, "else "@, seq![], trim(t.skip("alt "@.len() as int)), seq![])
        } else if starts_with(t, "opt "@) {
            body_error(ls, pos + 1, ps, seq![])
        } else if starts_with(t, "par "@) {
            cases_error(ls, pos + 1, ps, "and "@, seq![], trim(t.skip("par "@.len() as int)), seq![])
        } else if t == "end"@ || starts_with(t, "else "@) || starts_with(t, "and "@) {
            seq![]
        } else {
            "could not parse message"@
        }
    }
}

/// The message of a `loop` or `opt` body that does not parse (meaningful
/// when `body(ls, pos, ps, acc)` is `None`).
pub open spec fn body_error(ls: Seq<Seq<char>>, pos: int, ps: Seq<ParticipantModel>, acc: Seq<StmtModel>) -> Seq<char>
    decreases ls.len() + 1 - pos, 1nat,
{
    if pos < 0 || pos >= ls.len() {
        seq![]
    } else {
        let t = trim(ls[pos]);
        if t == "end"@ {
            seq![]
        } else if is_skippable(t) {
            body_error(ls, pos + 1, ps, acc)
        } else {
            match stmt(ls, pos, ps) {
                Some((o, p2, ps2)) => body_error(ls, step(ls, pos, p2), ps2, acc + opt_seq(o)),
                None => stmt_error(ls, pos, ps),
            }
        }
    }
}

/// The message of `alt` or `par` sections that do not parse (meaningful
/// when `cases(..)` is `None`).
pub open spec fn cases_error(
    ls: Seq<Seq<char>>,
    pos: int,
    ps: Seq<ParticipantModel>,
    sep: Seq<char>,
    done: Seq<(Seq<char>, Seq<StmtModel>)>,
    label: Seq<char>,
    cur: Seq<StmtModel>,
) -> Seq<char>
    decreases ls.len() + 1 - pos, 1nat,
{
    if pos < 0 || pos >= ls.len() {
        seq![]
    } else {
        let t = trim(ls[pos]);
        if t == "end"@ {
            seq![]
        } else if starts_with(t, sep) {
            cases_error(ls, pos + 1, ps, sep, done.push((label, cur)), trim(t.skip(sep.len() as int)), seq![])
        } else if is_skippable(t) {
            cases_error(ls, pos + 1, ps, sep, done, label, cur)
        } else {
            match stmt(ls, pos, ps) {
                Some((o, p2, ps2)) => cases_error(ls, step(ls, pos, p2), ps2, sep, done, label, cur + opt_seq(o)),
                None => stmt_error(ls, pos, ps),
            }
        }
    }
}

/// The message of top-level statements that do not parse (meaningful when
/// `top(ls, pos, ps, acc)` is `None`).
pub open spec fn top_error(ls: Seq<Seq<char>>, pos: int, ps: Seq<ParticipantModel>, acc: Seq<StmtModel>) -> Seq<char>
    decreases ls.len() + 1 - pos,
{
    if pos < 0 || pos >= ls.len() {
        seq![]
    } else {
        let t = trim(ls[pos]);
        if is_skippable(t) {
            top_error(ls, pos + 1, ps, acc)
        } else {
            match stmt(ls, pos, ps) {
                Some((o, p2, ps2)) => top_error(ls, step(ls, pos, p2), ps2, acc + opt_seq(o)),
                None => stmt_error(ls, pos, ps),
            }
        }
    }
}

/// The message of a missing or wrong header from line `pos` on (meaningful
/// when `seq_header(ls, pos)` is `None`).
pub open spec fn seq_header_error(ls: Seq<Seq<char>>, pos: int) -> Seq<char>
    decreases ls.len() - pos,
{
    if pos < 0 || pos >= ls.len() {
        "no sequenceDiagram header found"@
    } else {
        let t = trim(ls[pos]);
        if is_skippable(t) {
            seq_header_error(ls, pos + 1)
        } else {
            "expected 'sequenceDiagram'"@
        }
    }
}

/// The message of a sequence `source` that does not parse (meaningful when
/// `sequence_of(source)` is `None`).
pub open spec fn sequence_error(source: Seq<char>) -> Seq<char> {
    let ls = lines(source);
    match seq_header(ls, 0) {
        Some(p) => top_error(ls, p, seq![], seq![]),
        None => seq_header_error(ls, 0),
    }
}

// ── Laws ───────────────────────────────────────────────────────────────────

/// No two participants share an alias.
pub open spec fn unique_aliases(ps: Seq<ParticipantModel>) -> bool {
    forall|i: int, j: int| 0 <= i < j < ps.len() ==> ps[i].alias != ps[j].alias
}

/// `alias` names some participant.
pub open spec fn has_part(ps: Seq<ParticipantModel>, alias: Seq<char>) -> bool {
    exists|i: int| 0 <= i < ps.len() && #[trigger] ps[i].alias == alias
}

/// Every alias known in `ps` is known in `ps2`.
pub open spec fn grows(ps: Seq<ParticipantModel>, ps2: Seq<ParticipantModel>) -> bool {
    forall|a: Seq<char>| has_part(ps, a) ==> #[trigger] has_part(ps2, a)
}

/// Every message in `s`, at any depth, is between participants of `ps`.
pub open spec fn stmt_known(s: StmtModel, ps: Seq<ParticipantModel>) -> bool
    decreases s,
{
    match s {
        StmtModel::Message { from, to, .. } => has_part(ps, from) && has_part(ps, to),
        StmtModel::Loop { body, .. } => forall|i: int|
            0 <= i < body.len() ==> stmt_known(#[trigger] body[i], ps),
        StmtModel::Opt { body, .. } => forall|i: int|
            0 <= i < body.len() ==> stmt_known(#[trigger] body[i], ps),
        StmtModel::Alt { cases } => forall|i: int, j: int|
            0 <= i < cases.len() && 0 <= j < cases[i].1.len() ==> stmt_known(
                #[trigger] cases[i].1[j],
                ps,
            ),
        StmtModel::Par { sections } => forall|i: int, j: int|
            0 <= i < sections.len() && 0 <= j < sections[i].1.len() ==> stmt_known(
                #[trigger] sections[i].1[j],
                ps,
            ),
        _ => true,
    }
}

/// Every statement of `ss` passes `stmt_known`.
pub open spec fn all_known(ss: Seq<StmtModel>, ps: Seq<ParticipantModel>) -> bool {
    forall|i: int| 0 <= i < ss.len() ==> stmt_known(#[trigger] ss[i], ps)
}

/// Every section of `cs` passes `all_known`.
pub open spec fn cases_known(cs: Seq<(Seq<char>, Seq<StmtModel>)>, ps: Seq<ParticipantModel>) -> bool {
    forall|i: int| 0 <= i < cs.len() ==> all_known(#[trigger] cs[i].1, ps)
}

proof fn lemma_known_grows(s: StmtModel, ps: Seq<ParticipantModel>, ps2: Seq<ParticipantModel>)
    requires
        grows(ps, ps2),
        stmt_known(s, ps),
    ensures
        stmt_known(s, ps2),
    decreases s,
{
    match s {
        StmtModel::Message { from, to, .. } => {
            assert(has_part(ps2, from));
            assert(has_part(ps2, to));
        },
        StmtModel::Loop { body, .. } => {
            assert forall|i: int| 0 <= i < body.len() implies stmt_known(#[trigger] body[i], ps2) by {
                lemma_known_grows(body[i], ps, ps2);
            }
        },
        StmtModel::Opt { body, .. } => {
            assert forall|i: int| 0 <= i < body.len() implies stmt_known(#[trigger] body[i], ps2) by {
                lemma_known_grows(body[i], ps, ps2);
            }
        },
        StmtModel::Alt { cases } => {
            assert forall|i: int, j: int| 0 <= i < cases.len() && 0 <= j < cases[i].1.len() implies stmt_known(
                #[trigger] cases[i].1[j],
                ps2,
            ) by {
                lemma_known_grows(cases[i].1[j], ps, ps2);
            }
        },
        StmtModel::Par { sections } => {
            assert forall|i: int, j: int| 0 <= i < sections.len() && 0 <= j < sections[i].1.len() implies stmt_known(
                #[trigger] sections[i].1[j],
                ps2,
            ) by {
                lemma_known_grows(sections[i].1[j], ps, ps2);
            }
        },
        _ => {},
    }
}

proof fn lemma_all_known_grows(ss: Seq<StmtModel>, ps: Seq<ParticipantModel>, ps2: Seq<ParticipantModel>)
    requires
        grows(ps, ps2),
        all_known(ss, ps),
    ensures
        all_known(ss, ps2),
{
    assert forall|i: int| 0 <= i < ss.len() implies stmt_known(#[trigger] ss[i], ps2) by {
        lemma_known_grows(ss[i], ps, ps2);
    }
}

proof fn lemma_cases_known_grows(
    cs: Seq<(Seq<char>, Seq<StmtModel>)>,
    ps: Seq<ParticipantModel>,
    ps2: Seq<ParticipantModel>,
)
    requires
        grows(ps, ps2),
        cases_known(cs, ps),
    ensures
        cases_known(cs, ps2),
{
    assert forall|i: int| 0 <= i < cs.len() implies all_known(#[trigger] cs[i].1, ps2) by {
        lemma_all_known_grows(cs[i].1, ps, ps2);
    }
}

proof fn lemma_part_pos_spec(ps: Seq<ParticipantModel>, alias: Seq<char>)
    ensures
        part_pos(ps, alias) matches Some(i) ==> 0 <= i < ps.len() && ps[i].alias == alias,
        part_pos(ps, alias) is None ==> !has_part(ps, alias),
    decreases ps.len(),
{
    if ps.len() > 0 && ps.last().alias != alias {
        lemma_part_pos_spec(ps.drop_last(), alias);
        if part_pos(ps, alias) is None {
            assert forall|i: int| 0 <= i < ps.len() implies #[trigger] ps[i].alias != alias by {
                if i < ps.len() - 1 {
                    assert(ps[i] == ps.drop_last()[i]);
                }
            }
        }
    }
}

proof fn lemma_ensure_part(ps: Seq<ParticipantModel>, alias: Seq<char>)
    requires
        unique_aliases(ps),
    ensures
        unique_aliases(ensure_part(ps, alias)),
        has_part(ensure_part(ps, alias), alias),
        grows(ps, ensure_part(ps, alias)),
{
    lemma_part_pos_spec(ps, alias);
    let r = ensure_part(ps, alias);
    if part_pos(ps, alias) is None {
        assert(r[ps.len() as int].alias == alias);
        assert forall|a: Seq<char>| has_part(ps, a) implies #[trigger] has_part(r, a) by {
            let i = choose|i: int| 0 <= i < ps.len() && #[trigger] ps[i].alias == a;
            assert(r[i] == ps[i]);
        }
    } else {
        let i = part_pos(ps, alias).unwrap();
        assert(r[i].alias == alias);
    }
}

proof fn lemma_declare_part(ps: Seq<ParticipantModel>, p: ParticipantModel)
    requires
        unique_aliases(ps),
    ensures
        unique_aliases(declare_part(ps, p)),
        grows(ps, declare_part(ps, p)),
{
    lemma_part_pos_spec(ps, p.alias);
    let r = declare_part(ps, p);
    assert forall|a: Seq<char>| has_part(ps, a) implies #[trigger] has_part(r, a) by {
        let i = choose|i: int| 0 <= i < ps.len() && #[trigger] ps[i].alias == a;
        if part_pos(ps, p.alias) is Some {
            if i == part_pos(ps, p.alias).unwrap() {
                assert(r[i].alias == a);
            } else {
                assert(r[i] == ps[i]);
            }
        } else {
            assert(r[i] == ps[i]);
        }
    }
}

proof fn lemma_grows_trans(a: Seq<ParticipantModel>, b: Seq<ParticipantModel>, c: Seq<ParticipantModel>)
    requires
        grows(a, b),
        grows(b, c),
    ensures
        grows(a, c),
{
    assert forall|x: Seq<char>| has_part(a, x) implies #[trigger] has_part(c, x) by {
        assert(has_part(b, x));
    }
}

proof fn lemma_all_known_add(a: Seq<StmtModel>, o: Option<StmtModel>, ps: Seq<ParticipantModel>)
    requires
        all_known(a, ps),
        o matches Some(s) ==> stmt_known(s, ps),
    ensures
        all_known(a + opt_seq(o), ps),
{
    let r = a + opt_seq(o);
    assert forall|i: int| 0 <= i < r.len() implies stmt_known(#[trigger] r[i], ps) by {
        if i < a.len() {
            assert(r[i] == a[i]);
        }
    }
}

proof fn lemma_message_from(t: Seq<char>, k: int)
    ensures
        message_from(t, k) matches Some(m) ==> m is Message,
    decreases 8 - k,
{
    if 0 <= k < 8 && find_from(arrow_zone(t), arrow_text(k), 0) is None {
        lemma_message_from(t, k + 1);
    }
}

/// What `lemma_stmt` establishes of the statement on line `pos`.
spec fn stmt_ok(ls: Seq<Seq<char>>, pos: int, ps: Seq<ParticipantModel>) -> bool {
    stmt(ls, pos, ps) matches Some((o, _, ps2)) ==> unique_aliases(ps2) && grows(ps, ps2) && (
    o matches Some(s) ==> stmt_known(s, ps2))
}

proof fn lemma_block_known(label: Seq<char>, b: Seq<StmtModel>, ps: Seq<ParticipantModel>)
    requires
        all_known(b, ps),
    ensures
        stmt_known(StmtModel::Loop { label, body: b }, ps),
        stmt_known(StmtModel::Opt { label, body: b }, ps),
{
    assert forall|i: int| 0 <= i < b.len() implies stmt_known(#[trigger] b[i], ps) by {
        assert(all_known(b, ps));
    }
}

proof fn lemma_sections_known(cs: Seq<(Seq<char>, Seq<StmtModel>)>, ps: Seq<ParticipantModel>)
    requires
        cases_known(cs, ps),
    ensures
        stmt_known(StmtModel::Alt { cases: cs }, ps),
        stmt_known(StmtModel::Par { sections: cs }, ps),
{
    assert forall|i: int, j: int| 0 <= i < cs.len() && 0 <= j < cs[i].1.len() implies stmt_known(
        #[trigger] cs[i].1[j],
        ps,
    ) by {
        assert(all_known(cs[i].1, ps));
    }
}

proof fn lemma_stmt(ls: Seq<Seq<char>>, pos: int, ps: Seq<ParticipantModel>)
    requires
        unique_aliases(ps),
    ensures
        stmt_ok(ls, pos, ps),
    decreases ls.len() + 1 - pos, 0nat,
{
    if 0 <= pos < ls.len() {
        let t = trim(ls[pos]);
        assert(grows(ps, ps));
        if starts_with(t, "participant "@) {
            lemma_declare_part(ps, declared(t, "participant "@.len() as int, ParticipantKind::Participant));
        } else if starts_with(t, "actor "@) {
            lemma_declare_part(ps, declared(t, "actor "@.len() as int, ParticipantKind::Actor));
        } else if starts_with(t, "activate "@) {
        } else if starts_with(t, "deactivate "@) {
        } else if starts_with_ci(t, "note "@) {
        } else if starts_with(t, "loop "@) {
            lemma_body(ls, pos + 1, ps, seq![]);
            if let Some((b, p2, ps2)) = body(ls, pos + 1, ps, seq![]) {
                lemma_block_known(trim(t.skip("loop "@.len() as int)), b, ps2);
            }
        } else if starts_with(t, "alt "@) {
            let first = trim(t.skip("alt "@.len() as int));
            lemma_cases(ls, pos + 1, ps, "else "@, seq![], first, seq![]);
            if let Some((cs, p2, ps2)) = cases(ls, pos + 1, ps, "else "@, seq![], first, seq![]) {
                lemma_sections_known(cs, ps2);
            }
        } else if starts_with(t, "opt "@) {
            lemma_body(ls, pos + 1, ps, seq![]);
            if let Some((b, p2, ps2)) = body(ls, pos + 1, ps, seq![]) {
                lemma_block_known(trim(t.skip("opt "@.len() as int)), b, ps2);
            }
        } else if starts_with(t, "par "@) {
            let first = trim(t.skip("par "@.len() as int));
            lemma_cases(ls, pos + 1, ps, "and "@, seq![], first, seq![]);
            if let Some((cs, p2, ps2)) = cases(ls, pos + 1, ps, "and "@, seq![], first, seq![]) {
                lemma_sections_known(cs, ps2);
            }
        } else if t == "end"@ || starts_with(t, "else "@) || starts_with(t, "and "@) {
        } else if let Some(m) = message_from(t, 0) {
            lemma_message_from(t, 0);
            let p1 = ensure_part(ps, m->from);
            lemma_ensure_part(ps, m->from);
            lemma_ensure_part(p1, m->to);
            lemma_grows_trans(ps, p1, ensure_part(p1, m->to));
            assert(has_part(ensure_part(p1, m->to), m->from));
            assert(stmt_known(m, ensure_part(p1, m->to)));
        }
    }
}

proof fn lemma_body(ls: Seq<Seq<char>>, pos: int, ps: Seq<ParticipantModel>, acc: Seq<StmtModel>)
    requires
        unique_aliases(ps),
        all_known(acc, ps),
    ensures
        body(ls, pos, ps, acc) matches Some((b, _, ps2)) ==> unique_aliases(ps2) && grows(ps, ps2)
            && all_known(b, ps2),
    decreases ls.len() + 1 - pos, 1nat,
{
    if 0 <= pos < ls.len() {
        let t = trim(ls[pos]);
        if t == "end"@ {
        } else if is_skippable(t) {
            lemma_body(ls, pos + 1, ps, acc);
        } else {
            lemma_stmt(ls, pos, ps);
            if let Some((o, p2, ps2)) = stmt(ls, pos, ps) {
                lemma_all_known_grows(acc, ps, ps2);
                lemma_all_known_add(acc, o, ps2);
                lemma_body(ls, step(ls, pos, p2), ps2, acc + opt_seq(o));
                if let Some((b, p3, ps3)) = body(ls, step(ls, pos, p2), ps2, acc + opt_seq(o)) {
                    lemma_grows_trans(ps, ps2, ps3);
                }
            }
        }
    }
}

proof fn lemma_cases(
    ls: Seq<Seq<char>>,
    pos: int,
    ps: Seq<ParticipantModel>,
    sep: Seq<char>,
    done: Seq<(Seq<char>, Seq<StmtModel>)>,
    label: Seq<char>,
    cur: Seq<StmtModel>,
)
    requires
        unique_aliases(ps),
        cases_known(done, ps),
        all_known(cur, ps),
    ensures
        cases(ls, pos, ps, sep, done, label, cur) matches Some((cs, _, ps2)) ==> unique_aliases(ps2)
            && grows(ps, ps2) && cases_known(cs, ps2),
    decreases ls.len() + 1 - pos, 1nat,
{
    if 0 <= pos < ls.len() {
        let t = trim(ls[pos]);
        let done2 = done.push((label, cur));
        assert(cases_known(done2, ps)) by {
            assert forall|i: int| 0 <= i < done2.len() implies all_known(#[trigger] done2[i].1, ps) by {
                if i < done.len() {
                    assert(done2[i] == done[i]);
                }
            }
        }
        if t == "end"@ {
        } else if starts_with(t, sep) {
            lemma_cases(ls, pos + 1, ps, sep, done2, trim(t.skip(sep.len() as int)), seq![]);
        } else if is_skippable(t) {
            lemma_cases(ls, pos + 1, ps, sep, done, label, cur);
        } else {
            lemma_stmt(ls, pos, ps);
            if let Some((o, p2, ps2)) = stmt(ls, pos, ps) {
                lemma_cases_known_grows(done, ps, ps2);
                lemma_all_known_grows(cur, ps, ps2);
                lemma_all_known_add(cur, o, ps2);
                lemma_cases(ls, step(ls, pos, p2), ps2, sep, done, label, cur + opt_seq(o));
                if let Some((cs, p3, ps3)) = cases(ls, step(ls, pos, p2), ps2, sep, done, label, cur + opt_seq(o)) {
                    lemma_grows_trans(ps, ps2, ps3);
                }
            }
        }
    }
}

proof fn lemma_top(ls: Seq<Seq<char>>, pos: int, ps: Seq<ParticipantModel>, acc: Seq<StmtModel>)
    requires
        unique_aliases(ps),
        all_known(acc, ps),
    ensures
        top(ls, pos, ps, acc) matches Some((ss, ps2)) ==> unique_aliases(ps2) && all_known(ss, ps2),
    decreases ls.len() + 1 - pos,
{
    if 0 <= pos < ls.len() {
        let t = trim(ls[pos]);
        if is_skippable(t) {
            lemma_top(ls, pos + 1, ps, acc);
        } else {
            lemma_stmt(ls, pos, ps);
            if let Some((o, p2, ps2)) = stmt(ls, pos, ps) {
                lemma_all_known_grows(acc, ps, ps2);
                lemma_all_known_add(acc, o, ps2);
                lemma_top(ls, step(ls, pos, p2), ps2, acc + opt_seq(o));
            }
        }
    }
}

/// Law: a parsed sequence diagram lists each participant alias once, and
/// every message, at any depth of nesting, is between listed participants.
pub proof fn law_sequence_well_formed(source: Seq<char>)
    ensures
        sequence_of(source) matches Some((ps, ss)) ==> unique_aliases(ps) && all_known(ss, ps),
{
    let ls = lines(source);
    if let Some(p) = seq_header(ls, 0) {
        lemma_top(ls, p, seq![], seq![]);
    }
}

// ── Implementation: participants ───────────────────────────────────────────

proof fn lemma_part_pos(ps: Seq<ParticipantModel>, alias: Seq<char>)
    ensures
        part_pos(ps, alias) matches Some(i) ==> 0 <= i < ps.len() && ps[i].alias == alias,
        part_pos(ps, alias) is None ==> forall|i: int| 0 <= i < ps.len() ==> #[trigger] ps[i].alias != alias,
    decreases ps.len(),
{
    if ps.len() > 0 && ps.last().alias != alias {
        lemma_part_pos(ps.drop_last(), alias);
        if part_pos(ps, alias) is None {
            assert forall|i: int| 0 <= i < ps.len() implies #[trigger] ps[i].alias != alias by {
                if i < ps.len() - 1 {
                    assert(ps[i] == ps.drop_last()[i]);
                }
            }
        }
    }
}

/// Position of the last participant with alias `alias`.
fn find_part(parts: &Vec<Participant>, alias: &String) -> (r: Option<usize>)
    ensures
        match part_pos(participants_model(parts@), alias@) {
            Some(i) => r matches Some(k) && k == i,
            None => r is None,
        },
{
    let ghost m = participants_model(parts@);
    let mut k = parts.len();
    assert(m.take(k as int) =~= m);
    while k > 0
        invariant
            k <= parts@.len(),
            m == participants_model(parts@),
            part_pos(m, alias@) == part_pos(m.take(k as int), alias@),
        decreases k,
    {
        let ghost mk = m.take(k as int);
        assert(mk.drop_last() =~= m.take(k - 1));
        assert(mk.last() == participant_model(parts@[k - 1]));
        if parts[k - 1].alias == *alias {
            return Some(k - 1);
        }
        k = k - 1;
    }
    assert(m.take(0) =~= Seq::<ParticipantModel>::empty());
    None
}

fn ensure_part_exec(parts: &mut Vec<Participant>, alias: &String)
    ensures
        participants_model(final(parts)@) == ensure_part(participants_model(old(parts)@), alias@),
{
    match find_part(parts, alias) {
        Some(_) => {},
        None => {
            parts.push(
                Participant {
                    alias: alias.clone(),
                    display: alias.clone(),
                    kind: ParticipantKind::Participant,
                },
            );
            assert(participants_model(final(parts)@) =~= ensure_part(
                participants_model(old(parts)@),
                alias@,
            ));
        },
    }
}

fn declare_part_exec(parts: &mut Vec<Participant>, p: Participant)
    ensures
        participants_model(final(parts)@) == declare_part(
            participants_model(old(parts)@),
            participant_model(p),
        ),
{
    let ghost before = participants_model(parts@);
    let ghost pm = participant_model(p);
    proof {
        lemma_part_pos(before, p.alias@);
    }
    match find_part(parts, &p.alias) {
        Some(i) => {
            assert(pm.alias == p.alias@);
            assert(part_pos(before, pm.alias) == Some(i as int));
            parts.set(i, p);
            assert(participants_model(parts@) =~= before.update(i as int, pm));
        },
        None => {
            assert(pm.alias == p.alias@);
            parts.push(p);
            assert(participants_model(parts@) =~= before.push(pm));
        },
    }
}

/// The participant declared by `t` after a keyword of `kw` characters.
fn parse_declared(t: &[char], kw: usize, kind: ParticipantKind) -> (p: Participant)
    requires
        kw <= t@.len(),
    ensures
        participant_model(p) == declared(t@, kw as int, kind),
{
    let tail = slice_vec(t, kw, t.len());
    assert(tail@ =~= t@.skip(kw as int));
    let rest = trim_chars(tail.as_slice());
    let as_kw = chars_of(" as ");
    match find_chars(rest.as_slice(), as_kw.as_slice(), 0) {
        Some(a) => {
            let n = rest.len();
            assert(a + as_kw@.len() <= n);
            let head = slice_vec(rest.as_slice(), 0, a);
            let disp = slice_vec(rest.as_slice(), a + as_kw.len(), n);
            assert(head@ =~= rest@.take(a as int));
            assert(disp@ =~= rest@.skip(a + " as "@.len()));
            let alias = trim_chars(head.as_slice());
            let display = trim_chars(disp.as_slice());
            Participant { alias: string_of(alias.as_slice()), display: string_of(display.as_slice()), kind }
        },
        None => Participant { alias: string_of(rest.as_slice()), display: string_of(rest.as_slice()), kind },
    }
}

// ── Implementation: messages and notes ─────────────────────────────────────

/// The `k`-th arrow and its type.
fn arrow_at(k: usize) -> (r: (Vec<char>, ArrowType))
    ensures
        r.0@ == arrow_text(k as int),
        r.1 == arrow_type(k as int),
{
    if k == 0 {
        (chars_of("-->>"), ArrowType::DottedAsync)
    } else if k == 1 {
        (chars_of("->>"), ArrowType::SolidAsync)
    } else if k == 2 {
        (chars_of("-->"), ArrowType::Dotted)
    } else if k == 3 {
        (chars_of("->"), ArrowType::Solid)
    } else if k == 4 {
        (chars_of("--x"), ArrowType::DotCross)
    } else if k == 5 {
        (chars_of("-x"), ArrowType::Cross)
    } else if k == 6 {
        (chars_of("--)"), ArrowType::DotPoint)
    } else {
        (chars_of("-)"), ArrowType::Point)
    }
}

/// The message line `t`.
fn parse_message(t: &[char]) -> (r: Result<Message, MermaidRenderError>)
    ensures
        match message_from(t@, 0) {
            Some(m) => r matches Ok(x) && stmt_model(SequenceStatement::Message(x)) == m,
            None => r matches Err(MermaidRenderError::Parse(m)) && m@ == "could not parse message"@,
        },
{
    let zone_end = match position_of(t, ':') {
        Some(c) => c,
        None => t.len(),
    };
    let zone = slice_vec(t, 0, zone_end);
    assert(zone@ =~= arrow_zone(t@));
    let mut k: usize = 0;
    while k < 8
        invariant
            k <= 8,
            zone_end <= t@.len(),
            zone@ == arrow_zone(t@),
            zone@ == t@.take(zone_end as int),
            message_from(t@, 0) == message_from(t@, k as int),
        decreases 8 - k,
    {
        let (pat, arrow) = arrow_at(k);
        match find_chars(zone.as_slice(), pat.as_slice(), 0) {
            Some(p) => {
                let n = t.len();
                assert(p + pat@.len() <= zone_end);
                let head = slice_vec(t, 0, p);
                let rest = slice_vec(t, p + pat.len(), n);
                assert(head@ =~= t@.take(p as int));
                assert(rest@ =~= t@.skip(p + pat@.len()));
                let from = trim_chars(head.as_slice());
                match position_of(rest.as_slice(), ':') {
                    Some(c) => {
                        let to_v = slice_vec(rest.as_slice(), 0, c);
                        let text_v = slice_vec(rest.as_slice(), c + 1, rest.len());
                        assert(to_v@ =~= rest@.take(c as int));
                        assert(text_v@ =~= rest@.skip(c + 1));
                        let to = trim_chars(to_v.as_slice());
                        let text = trim_chars(text_v.as_slice());
                        return Ok(
                            Message {
                                from: string_of(from.as_slice()),
                                to: string_of(to.as_slice()),
                                text: string_of(text.as_slice()),
                                arrow,
                            },
                        );
                    },
                    None => {
                        let to = trim_chars(rest.as_slice());
                        let empty: Vec<char> = Vec::new();
                        assert(empty@ =~= Seq::<char>::empty());
                        return Ok(
                            Message {
                                from: string_of(from.as_slice()),
                                to: string_of(to.as_slice()),
                                text: string_of(empty.as_slice()),
                                arrow,
                            },
                        );
                    },
                }
            },
            None => {},
        }
        k = k + 1;
    }
    Err(MermaidRenderError::Parse(owned("could not parse message")))
}

proof fn lemma_trim_all_add(a: Seq<Seq<char>>, b: Seq<Seq<char>>)
    ensures
        trim_all(a + b) == trim_all(a) + trim_all(b),
{
    assert(trim_all(a + b) =~= trim_all(a) + trim_all(b));
}

proof fn lemma_strings_push(v: Seq<String>, x: String)
    ensures
        strings_model(v.push(x)) == strings_model(v).push(x@),
{
    assert(strings_model(v.push(x)) =~= strings_model(v).push(x@));
}

/// `s` split at every `sep`, each piece trimmed.
#[verifier::rlimit(40)]
fn split_trimmed(s: &[char], sep: char) -> (r: Vec<String>)
    ensures
        strings_model(r@) == trim_all(split_on(s@, sep)),
{
    let mut out: Vec<String> = Vec::new();
    let mut rest: Vec<char> = slice_vec(s, 0, s.len());
    assert(rest@ =~= s@);
    assert(strings_model(out@) =~= Seq::<Seq<char>>::empty());
    assert(strings_model(out@) + trim_all(split_on(rest@, sep)) =~= trim_all(split_on(s@, sep)));
    loop
        invariant
            strings_model(out@) + trim_all(split_on(rest@, sep)) == trim_all(split_on(s@, sep)),
        decreases rest@.len(),
    {
        let ghost old_out = out@;
        let ghost old_rest = rest@;
        match position_of(rest.as_slice(), sep) {
            Some(i) => {
                let head = slice_vec(rest.as_slice(), 0, i);
                let n = rest.len();
                let tail = slice_vec(rest.as_slice(), i + 1, n);
                let piece = trim_chars(head.as_slice());
                let x = string_of(piece.as_slice());
                out.push(x);
                proof {
                    assert(head@ =~= old_rest.take(i as int));
                    assert(tail@ =~= old_rest.skip(i + 1));
                    lemma_split_some(old_rest, sep, i as int);
                    lemma_trim_all_add(seq![old_rest.take(i as int)], split_on(tail@, sep));
                    lemma_strings_push(old_out, x);
                    assert(trim_all(seq![old_rest.take(i as int)]) =~= seq![x@]);
                    assert(strings_model(out@) + trim_all(split_on(tail@, sep)) =~= strings_model(old_out)
                        + trim_all(split_on(old_rest, sep)));
                }
                rest = tail;
            },
            None => {
                let piece = trim_chars(rest.as_slice());
                let x = string_of(piece.as_slice());
                out.push(x);
                proof {
                    lemma_split_none(old_rest, sep);
                    lemma_strings_push(old_out, x);
                    assert(trim_all(seq![old_rest]) =~= seq![x@]);
                }
                return out;
            },
        }
    }
}

/// The note whose participants and text follow at `ps`.
fn parse_note_rest(ps: &[char], position: NotePosition) -> (r: Result<Note, MermaidRenderError>)
    ensures
        match note_rest(ps@, position) {
            Some(n) => r matches Ok(x) && stmt_model(SequenceStatement::Note(x)) == n,
            None => r matches Err(MermaidRenderError::Parse(m)) && m@ == "note missing colon"@,
        },
{
    match position_of(ps, ':') {
        Some(c) => {
            let n = ps.len();
            assert(c < n);
            let head = slice_vec(ps, 0, c);
            let tail = slice_vec(ps, c + 1, n);
            assert(head@ =~= ps@.take(c as int));
            assert(tail@ =~= ps@.skip(c + 1));
            let names = trim_chars(head.as_slice());
            let text = trim_chars(tail.as_slice());
            let participants = split_trimmed(names.as_slice(), ',');
            Ok(Note { position, participants, text: string_of(text.as_slice()) })
        },
        None => Err(MermaidRenderError::Parse(owned("note missing colon"))),
    }
}

/// The note line `t`.
fn parse_note(t: &[char]) -> (r: Result<Note, MermaidRenderError>)
    ensures
        match note_stmt(t@) {
            Some(n) => r matches Ok(x) && stmt_model(SequenceStatement::Note(x)) == n,
            None => r matches Err(MermaidRenderError::Parse(m)) && m@ == note_error(t@),
        },
{
    let over = chars_of("note over ");
    let left = chars_of("note left of ");
    let right = chars_of("note right of ");
    if has_prefix_ci(t, over.as_slice()) {
        let rest = slice_vec(t, over.len(), t.len());
        assert(rest@ =~= t@.skip("note over "@.len() as int));
        parse_note_rest(rest.as_slice(), NotePosition::Over)
    } else if has_prefix_ci(t, left.as_slice()) {
        let rest = slice_vec(t, left.len(), t.len());
        assert(rest@ =~= t@.skip("note left of "@.len() as int));
        parse_note_rest(rest.as_slice(), NotePosition::LeftOf)
    } else if has_prefix_ci(t, right.as_slice()) {
        let rest = slice_vec(t, right.len(), t.len());
        assert(rest@ =~= t@.skip("note right of "@.len() as int));
        parse_note_rest(rest.as_slice(), NotePosition::RightOf)
    } else {
        Err(MermaidRenderError::Parse(owned("invalid note syntax")))
    }
}

// ── Implementation: statements and blocks ──────────────────────────────────

/// Model of an optional statement.
pub open spec fn opt_stmt_model(o: Option<SequenceStatement>) -> Option<StmtModel> {
    match o {
        Some(s) => Some(stmt_model(s)),
        None => None,
    }
}

proof fn lemma_stmts_push(v: Seq<SequenceStatement>, x: SequenceStatement)
    ensures
        stmts_model(v.push(x)) == stmts_model(v).push(stmt_model(x)),
{
    assert(v.push(x).drop_last() =~= v);
}

proof fn lemma_cases_push(v: Seq<(String, Vec<SequenceStatement>)>, x: (String, Vec<SequenceStatement>))
    ensures
        cases_model(v.push(x)) == cases_model(v).push((x.0@, stmts_model(x.1@))),
{
    assert(v.push(x).drop_last() =~= v);
}

/// `t` begins with the characters of `p`.
fn has_lit(t: &[char], p: &str) -> (b: bool)
    ensures
        b == starts_with(t@, p@),
{
    let pv = chars_of(p);
    has_prefix(t, pv.as_slice())
}

/// `t` is exactly the characters of `p`.
fn is_lit(t: &[char], p: &str) -> (b: bool)
    ensures
        b == (t@ == p@),
{
    let pv = chars_of(p);
    let b = t.len() == pv.len() && has_prefix(t, pv.as_slice());
    proof {
        if t@.len() == p@.len() {
            assert(t@.take(t@.len() as int) =~= t@);
        }
    }
    b
}

/// The trimmed text of `t` after its first `kw` characters.
fn label_after(t: &[char], kw: &str) -> (r: Vec<char>)
    requires
        starts_with(t@, kw@),
    ensures
        r@ == trim(t@.skip(kw@.len() as int)),
{
    let k = chars_of(kw);
    let tail = slice_vec(t, k.len(), t.len());
    assert(tail@ =~= t@.skip(kw@.len() as int));
    trim_chars(tail.as_slice())
}

/// Executable `step`.
fn next_line(ls: &Vec<Vec<char>>, pos: usize, p2: usize) -> (q: usize)
    requires
        pos < ls@.len(),
    ensures
        q == step(lines_view(ls@), pos as int, p2 as int),
        pos < q <= ls@.len(),
{
    let n = ls.len();
    if p2 < pos {
        pos + 1
    } else if p2 < ls.len() {
        p2 + 1
    } else {
        ls.len()
    }
}

/// Parses the statement on line `pos`; returns the statement it yields and
/// the line it ends on.
fn parse_stmt(ls: &Vec<Vec<char>>, pos: usize, parts: &mut Vec<Participant>) -> (r: Result<
    (Option<SequenceStatement>, usize),
    MermaidRenderError,
>)
    requires
        pos < ls@.len(),
    ensures
        match stmt(lines_view(ls@), pos as int, participants_model(old(parts)@)) {
            Some((o, p2, ps2)) => r matches Ok((x, q)) && opt_stmt_model(x) == o && q == p2
                && participants_model(final(parts)@) == ps2,
            None => r matches Err(MermaidRenderError::Parse(m)) && m@ == stmt_error(
                lines_view(ls@),
                pos as int,
                participants_model(old(parts)@),
            ),
        },
    decreases ls@.len() + 1 - pos, 0nat,
{
    let n = ls.len();
    assert(pos + 1 <= n);
    let t = trimmed_line(ls, pos);
    let ts = t.as_slice();
    if has_lit(ts, "participant ") {
        let kw = chars_of("participant ");
        let p = parse_declared(ts, kw.len(), ParticipantKind::Participant);
        declare_part_exec(parts, p);
        Ok((None, pos))
    } else if has_lit(ts, "actor ") {
        let kw = chars_of("actor ");
        let p = parse_declared(ts, kw.len(), ParticipantKind::Actor);
        declare_part_exec(parts, p);
        Ok((None, pos))
    } else if has_lit(ts, "activate ") {
        let who = label_after(ts, "activate ");
        Ok((Some(SequenceStatement::Activate(string_of(who.as_slice()))), pos))
    } else if has_lit(ts, "deactivate ") {
        let who = label_after(ts, "deactivate ");
        Ok((Some(SequenceStatement::Deactivate(string_of(who.as_slice()))), pos))
    } else if has_prefix_ci(ts, chars_of("note ").as_slice()) {
        let n = parse_note(ts)?;
        Ok((Some(SequenceStatement::Note(n)), pos))
    } else if has_lit(ts, "loop ") {
        let label = label_after(ts, "loop ");
        let (b, p2) = parse_body(ls, pos + 1, parts)?;
        Ok((Some(SequenceStatement::Block(Block::Loop { label: string_of(label.as_slice()), body: b })), p2))
    } else if has_lit(ts, "alt ") {
        let label = label_after(ts, "alt ");
        let sep = chars_of("else ");
        let (cs, p2) = parse_cases(ls, pos + 1, parts, sep.as_slice(), label)?;
        Ok((Some(SequenceStatement::Block(Block::Alt { cases: cs })), p2))
    } else if has_lit(ts, "opt ") {
        let label = label_after(ts, "opt ");
        let (b, p2) = parse_body(ls, pos + 1, parts)?;
        Ok((Some(SequenceStatement::Block(Block::Opt { label: string_of(label.as_slice()), body: b })), p2))
    } else if has_lit(ts, "par ") {
        let label = label_after(ts, "par ");
        let sep = chars_of("and ");
        let (cs, p2) = parse_cases(ls, pos + 1, parts, sep.as_slice(), label)?;
        Ok((Some(SequenceStatement::Block(Block::Par { sections: cs })), p2))
    } else if is_lit(ts, "end") || has_lit(ts, "else ") || has_lit(ts, "and ") {
        Ok((None, pos))
    } else {
        let m = parse_message(ts)?;
        ensure_part_exec(parts, &m.from);
        ensure_part_exec(parts, &m.to);
        Ok((Some(SequenceStatement::Message(m)), pos))
    }
}

/// Parses the body of a `loop` or `opt` block from line `pos`; returns its
/// statements and the line it ends on.
fn parse_body(ls: &Vec<Vec<char>>, pos: usize, parts: &mut Vec<Participant>) -> (r: Result<
    (Vec<SequenceStatement>, usize),
    MermaidRenderError,
>)
    requires
        pos <= ls@.len(),
    ensures
        match body(lines_view(ls@), pos as int, participants_model(old(parts)@), seq![]) {
            Some((b, p2, ps2)) => r matches Ok((v, q)) && stmts_model(v@) == b && q == p2
                && participants_model(final(parts)@) == ps2,
            None => r matches Err(MermaidRenderError::Parse(m)) && m@ == body_error(
                lines_view(ls@),
                pos as int,
                participants_model(old(parts)@),
                seq![],
            ),
        },
    decreases ls@.len() + 1 - pos, 1nat,
{
    let ghost l = lines_view(ls@);
    let ghost ps0 = participants_model(parts@);
    let mut acc: Vec<SequenceStatement> = Vec::new();
    let mut cur = pos;
    assert(stmts_model(acc@) =~= Seq::<StmtModel>::empty());
    while cur < ls.len()
        invariant
            pos <= cur <= ls@.len(),
            l == lines_view(ls@),
            ps0 == participants_model(old(parts)@),
            body(l, pos as int, ps0, seq![]) == body(
                l,
                cur as int,
                participants_model(parts@),
                stmts_model(acc@),
            ),
            body_error(l, pos as int, ps0, seq![]) == body_error(
                l,
                cur as int,
                participants_model(parts@),
                stmts_model(acc@),
            ),
        decreases ls@.len() - cur,
    {
        let t = trimmed_line(ls, cur);
        if is_lit(t.as_slice(), "end") {
            return Ok((acc, cur));
        }
        if skippable(t.as_slice()) {
            cur = cur + 1;
        } else {
            let (o, p2) = parse_stmt(ls, cur, parts)?;
            match o {
                Some(x) => {
                    let ghost before = acc@;
                    proof {
                        lemma_stmts_push(before, x);
                    }
                    acc.push(x);
                    assert(stmts_model(acc@) =~= stmts_model(before) + opt_seq(opt_stmt_model(Some(x))));
                },
                None => {
                    assert(stmts_model(acc@) =~= stmts_model(acc@) + opt_seq(None));
                },
            }
            cur = next_line(ls, cur, p2);
        }
    }
    Ok((acc, cur))
}

/// Parses the sections of an `alt` or `par` block from line `pos`, the first
/// one labelled `first`; `sep` opens each further section.
fn parse_cases(
    ls: &Vec<Vec<char>>,
    pos: usize,
    parts: &mut Vec<Participant>,
    sep: &[char],
    first: Vec<char>,
) -> (r: Result<(Vec<(String, Vec<SequenceStatement>)>, usize), MermaidRenderError>)
    requires
        pos <= ls@.len(),
    ensures
        match cases(lines_view(ls@), pos as int, participants_model(old(parts)@), sep@, seq![], first@, seq![]) {
            Some((cs, p2, ps2)) => r matches Ok((v, q)) && cases_model(v@) == cs && q == p2
                && participants_model(final(parts)@) == ps2,
            None => r matches Err(MermaidRenderError::Parse(m)) && m@ == cases_error(
                lines_view(ls@),
                pos as int,
                participants_model(old(parts)@),
                sep@,
                seq![],
                first@,
                seq![],
            ),
        },
    decreases ls@.len() + 1 - pos, 1nat,
{
    let ghost l = lines_view(ls@);
    let ghost ps0 = participants_model(parts@);
    let mut done: Vec<(String, Vec<SequenceStatement>)> = Vec::new();
    let mut label = first;
    let mut acc: Vec<SequenceStatement> = Vec::new();
    let mut cur = pos;
    assert(stmts_model(acc@) =~= Seq::<StmtModel>::empty());
    assert(cases_model(done@) =~= Seq::<(Seq<char>, Seq<StmtModel>)>::empty());
    while cur < ls.len()
        invariant
            pos <= cur <= ls@.len(),
            l == lines_view(ls@),
            ps0 == participants_model(old(parts)@),
            cases(l, pos as int, ps0, sep@, seq![], first@, seq![]) == cases(
                l,
                cur as int,
                participants_model(parts@),
                sep@,
                cases_model(done@),
                label@,
                stmts_model(acc@),
            ),
            cases_error(l, pos as int, ps0, sep@, seq![], first@, seq![]) == cases_error(
                l,
                cur as int,
                participants_model(parts@),
                sep@,
                cases_model(done@),
                label@,
                stmts_model(acc@),
            ),
        decreases ls@.len() - cur,
    {
        let t = trimmed_line(ls, cur);
        if is_lit(t.as_slice(), "end") {
            let ghost before = done@;
            let x = (string_of(label.as_slice()), acc);
            proof {
                lemma_cases_push(before, x);
            }
            done.push(x);
            return Ok((done, cur));
        }
        if has_prefix(t.as_slice(), sep) {
            let ghost before = done@;
            let x = (string_of(label.as_slice()), acc);
            proof {
                lemma_cases_push(before, x);
            }
            done.push(x);
            let tail = slice_vec(t.as_slice(), sep.len(), t.len());
            assert(tail@ =~= t@.skip(sep@.len() as int));
            label = trim_chars(tail.as_slice());
            acc = Vec::new();
            assert(stmts_model(acc@) =~= Seq::<StmtModel>::empty());
            cur = cur + 1;
        } else if skippable(t.as_slice()) {
            cur = cur + 1;
        } else {
            let (o, p2) = parse_stmt(ls, cur, parts)?;
            match o {
                Some(x) => {
                    let ghost before = acc@;
                    proof {
                        lemma_stmts_push(before, x);
                    }
                    acc.push(x);
                    assert(stmts_model(acc@) =~= stmts_model(before) + opt_seq(opt_stmt_model(Some(x))));
                },
                None => {
                    assert(stmts_model(acc@) =~= stmts_model(acc@) + opt_seq(None));
                },
            }
            cur = next_line(ls, cur, p2);
        }
    }
    Ok((done, cur))
}

/// Skips to the `sequenceDiagram` header; returns the line after it.
fn parse_header(ls: &Vec<Vec<char>>) -> (r: Result<usize, MermaidRenderError>)
    ensures
        match seq_header(lines_view(ls@), 0) {
            Some(p) => r matches Ok(q) && q == p,
            None => r matches Err(MermaidRenderError::Parse(m)) && m@ == seq_header_error(
                lines_view(ls@),
                0,
            ),
        },
{
    let ghost l = lines_view(ls@);
    let mut pos: usize = 0;
    while pos < ls.len()
        invariant
            pos <= ls@.len(),
            l == lines_view(ls@),
            seq_header(l, 0) == seq_header(l, pos as int),
            seq_header_error(l, 0) == seq_header_error(l, pos as int),
        decreases ls.len() - pos,
    {
        let t = trimmed_line(ls, pos);
        if skippable(t.as_slice()) {
            pos = pos + 1;
        } else if has_prefix_ci(t.as_slice(), chars_of("sequencediagram").as_slice()) {
            return Ok(pos + 1);
        } else {
            return Err(MermaidRenderError::Parse(owned("expected 'sequenceDiagram'")));
        }
    }
    Err(MermaidRenderError::Parse(owned("no sequenceDiagram header found")))
}

/// Parses a `sequenceDiagram` source into a [`SequenceDiagram`].
pub fn parse(source: &str) -> (r: Result<SequenceDiagram, MermaidRenderError>)
    ensures
        match sequence_of(source@) {
            Some((ps, ss)) => r matches Ok(d) && participants_model(d.participants@) == ps
                && stmts_model(d.statements@) == ss,
            None => r matches Err(MermaidRenderError::Parse(m)) && m@ == sequence_error(source@),
        },
{
    let ls = source_lines(source);
    let ghost l = lines_view(ls@);
    let start = parse_header(&ls)?;
    let mut parts: Vec<Participant> = Vec::new();
    let mut statements: Vec<SequenceStatement> = Vec::new();
    let mut pos = start;
    assert(participants_model(parts@) =~= Seq::<ParticipantModel>::empty());
    assert(stmts_model(statements@) =~= Seq::<StmtModel>::empty());
    while pos < ls.len()
        invariant
            l == lines_view(ls@),
            l == lines(source@),
            seq_header(l, 0) == Some(start as int),
            top(l, start as int, seq![], seq![]) == top(
                l,
                pos as int,
                participants_model(parts@),
                stmts_model(statements@),
            ),
            top_error(l, start as int, seq![], seq![]) == top_error(
                l,
                pos as int,
                participants_model(parts@),
                stmts_model(statements@),
            ),
        decreases ls.len() - pos,
    {
        let t = trimmed_line(&ls, pos);
        if skippable(t.as_slice()) {
            pos = pos + 1;
        } else {
            let (o, p2) = parse_stmt(&ls, pos, &mut parts)?;
            match o {
                Some(x) => {
                    let ghost before = statements@;
                    proof {
                        lemma_stmts_push(before, x);
                    }
                    statements.push(x);
                    assert(stmts_model(statements@) =~= stmts_model(before) + opt_seq(
                        opt_stmt_model(Some(x)),
                    ));
                },
                None => {
                    assert(stmts_model(statements@) =~= stmts_model(statements@) + opt_seq(None));
                },
            }
            pos = next_line(&ls, pos, p2);
        }
    }
    Ok(SequenceDiagram { participants: parts, statements })
}

} // verus!
