//! The library's general laws, stated and proved over the same
//! specification functions that the executable functions' contracts use.

use vstd::prelude::*;

use crate::indent::cont_indent;
use crate::indent::first_prefix;
use crate::indent::lemma_write_lines_unfold;
use crate::indent::pad5;
use crate::indent::write_fragment;
use crate::indent::write_lines;
use crate::render::backtrace_block;
use crate::render::entries_first;
use crate::render::entries_last;
use crate::render::relabeled;
use crate::render::rendered_first;
use crate::render::rendered_last;
use crate::render::ErrorInfo;
use crate::text::dec_rep;
use crate::text::is_ws;
use crate::text::lemma_dec_rep_len;
use crate::text::lemma_split_lines_len;
use crate::text::lemma_split_lines_single;
use crate::text::lemma_split_lines_step;
use crate::text::lemma_trim_cons_ws;
use crate::text::spaces;
use crate::text::split_lines;
use crate::text::trim;
use crate::text::trim_end;
use crate::text::trim_start;

verus! {

/// While nothing has started, the head line never takes the continuation
/// indent, so the first-line flag makes no difference.
proof fn lemma_first_irrelevant(ind: Option<usize>, lines: Seq<Seq<char>>)
    ensures
        write_lines(ind, false, true, lines) == write_lines(ind, false, false, lines),
{
    if lines.len() > 0 {
        let l = lines[0];
        if trim(l).len() == 0 {
            assert(write_lines(ind, false, true, lines) == write_lines(
                ind,
                false,
                false,
                lines.drop_first(),
            ));
        } else {
            let rest = write_lines(ind, true, false, lines.drop_first());
            assert(write_lines(ind, false, true, lines) == (
                first_prefix(ind) + trim(l) + rest.0,
                rest.1,
            ));
        }
    }
}

/// A single-line message under a numeric label below 100000: the output is
/// the label right-justified to width 5, then `: `, then the trimmed
/// message, with no continuation line.
pub proof fn lemma_numbered_single_line(n: usize, msg: Seq<char>)
    requires
        n < 100000,
        forall|j: int| 0 <= j < msg.len() ==> msg[j] != '\n',
        trim(msg).len() > 0,
    ensures
        write_fragment(Some(n), false, msg).0 == pad5(dec_rep(n as nat)) + seq![':', ' '] + trim(
            msg,
        ),
        pad5(dec_rep(n as nat)).len() == 5,
{
    lemma_split_lines_single(msg);
    assert(seq![msg] + Seq::<Seq<char>>::empty() =~= seq![msg]);
    lemma_write_lines_unfold(Some(n), false, true, msg, Seq::<Seq<char>>::empty());
    lemma_dec_rep_len(n as nat);
    assert(write_fragment(Some(n), false, msg).0 =~= pad5(dec_rep(n as nat)) + seq![':', ' ']
        + trim(msg));
}

/// A two-line message: the first line is trimmed and prefixed, the second
/// follows a newline and the continuation indent, verbatim.
pub proof fn lemma_two_line_fragment(ind: Option<usize>, a: Seq<char>, b: Seq<char>)
    requires
        forall|j: int| 0 <= j < a.len() ==> a[j] != '\n',
        forall|j: int| 0 <= j < b.len() ==> b[j] != '\n',
        trim(a).len() > 0,
    ensures
        write_fragment(ind, false, a + seq!['\n'] + b).0 == first_prefix(ind) + trim(a) + seq![
            '\n',
        ] + cont_indent(ind) + b,
{
    let s = a + seq!['\n'] + b;
    assert(s[a.len() as int] == '\n');
    assert(forall|j: int| 0 <= j < a.len() ==> s[j] == a[j]);
    lemma_split_lines_step(s, a.len() as int);
    assert(s.take(a.len() as int) =~= a);
    assert(s.skip(a.len() as int + 1) =~= b);
    lemma_split_lines_single(b);
    assert(split_lines(s) == seq![a] + seq![b]);
    lemma_write_lines_unfold(ind, false, true, a, seq![b]);
    assert(seq![b] + Seq::<Seq<char>>::empty() =~= seq![b]);
    lemma_write_lines_unfold(ind, true, false, b, Seq::<Seq<char>>::empty());
    assert(write_fragment(ind, false, s).0 =~= first_prefix(ind) + trim(a) + seq!['\n']
        + cont_indent(ind) + b);
}

/// A two-line message under a numeric label below 100000: 5-wide label,
/// 7-space continuation indent.
pub proof fn lemma_numbered_two_lines(n: usize, a: Seq<char>, b: Seq<char>)
    requires
        n < 100000,
        forall|j: int| 0 <= j < a.len() ==> a[j] != '\n',
        forall|j: int| 0 <= j < b.len() ==> b[j] != '\n',
        trim(a).len() > 0,
    ensures
        write_fragment(Some(n), false, a + seq!['\n'] + b).0 == pad5(dec_rep(n as nat)) + seq![
            ':',
            ' ',
        ] + trim(a) + seq!['\n'] + spaces(7) + b,
        pad5(dec_rep(n as nat)).len() == 5,
{
    lemma_two_line_fragment(Some(n), a, b);
    lemma_dec_rep_len(n as nat);
    assert(first_prefix(Some(n)) + trim(a) + seq!['\n'] + cont_indent(Some(n)) + b =~= pad5(
        dec_rep(n as nat),
    ) + seq![':', ' '] + trim(a) + seq!['\n'] + spaces(7) + b);
}

/// A two-line message under the blank label: a 4-space prefix on both lines.
pub proof fn lemma_plain_two_lines(a: Seq<char>, b: Seq<char>)
    requires
        forall|j: int| 0 <= j < a.len() ==> a[j] != '\n',
        forall|j: int| 0 <= j < b.len() ==> b[j] != '\n',
        trim(a).len() > 0,
    ensures
        write_fragment(None, false, a + seq!['\n'] + b).0 == spaces(4) + trim(a) + seq!['\n']
            + spaces(4) + b,
{
    lemma_two_line_fragment(None, a, b);
}

/// Whitespace before the first non-whitespace character of a message is
/// invisible: the output, and the started flag left behind, are those of
/// the message with that leading whitespace removed.
pub proof fn lemma_leading_ws_invisible(ind: Option<usize>, s: Seq<char>)
    ensures
        write_fragment(ind, false, s) == write_fragment(ind, false, trim_start(s)),
    decreases s.len(),
{
    if s.len() == 0 || !is_ws(s[0]) {
    } else {
        let sdf = s.drop_first();
        lemma_leading_ws_invisible(ind, sdf);
        assert(trim_start(s) == trim_start(sdf));
        if s[0] == '\n' {
            assert(split_lines(s) == seq![Seq::<char>::empty()] + split_lines(sdf));
            assert(trim(Seq::<char>::empty()).len() == 0);
            lemma_write_lines_unfold(ind, false, true, Seq::<char>::empty(), split_lines(sdf));
            lemma_first_irrelevant(ind, split_lines(sdf));
        } else {
            let r = split_lines(sdf);
            lemma_split_lines_len(sdf);
            let l0 = seq![s[0]] + r[0];
            assert(split_lines(s) == seq![l0] + r.skip(1));
            assert(r =~= seq![r[0]] + r.skip(1));
            lemma_trim_cons_ws(s[0], r[0]);
            lemma_write_lines_unfold(ind, false, true, l0, r.skip(1));
            lemma_write_lines_unfold(ind, false, true, r[0], r.skip(1));
            assert(write_lines(ind, false, true, split_lines(s)) == write_lines(
                ind,
                false,
                true,
                r,
            ));
        }
    }
}

/// Rendering is a function of the chain's message texts and the section
/// texts alone: equal inputs give byte-identical output in either ordering,
/// however the two values were built.
pub proof fn lemma_render_deterministic(a: &ErrorInfo, b: &ErrorInfo)
    requires
        a.msgs() == b.msgs(),
        a.ctx_text() == b.ctx_text(),
        a.bt_text() == b.bt_text(),
    ensures
        rendered_first(a.msgs(), a.ctx_text(), a.bt_text()) == rendered_first(
            b.msgs(),
            b.ctx_text(),
            b.bt_text(),
        ),
        rendered_last(a.msgs(), a.ctx_text(), a.bt_text()) == rendered_last(
            b.msgs(),
            b.ctx_text(),
            b.bt_text(),
        ),
{
}

/// Root cause first on a three-entry chain: the deepest cause is numbered
/// 0 and the outermost error last; each entry is preceded by exactly one
/// newline and none is newline-terminated.
pub proof fn lemma_root_cause_first_order(msgs: Seq<Seq<char>>)
    requires
        msgs.len() == 3,
    ensures
        entries_first(msgs, 0) == seq!['\n'] + write_fragment(Some(0usize), false, trim(msgs[2])).0
            + seq!['\n'] + write_fragment(Some(1usize), false, trim(msgs[1])).0 + seq!['\n']
            + write_fragment(Some(2usize), false, trim(msgs[0])).0,
{
    let e0 = write_fragment(Some(0usize), false, trim(msgs[2])).0;
    let e1 = write_fragment(Some(1usize), false, trim(msgs[1])).0;
    let e2 = write_fragment(Some(2usize), false, trim(msgs[0])).0;
    assert(entries_first(msgs, 3).len() == 0);
    assert(entries_first(msgs, 2) == seq!['\n'] + e2 + entries_first(msgs, 3));
    assert(entries_first(msgs, 1) == seq!['\n'] + e1 + entries_first(msgs, 2));
    assert(entries_first(msgs, 0) == seq!['\n'] + e0 + entries_first(msgs, 1));
    assert(entries_first(msgs, 0) =~= seq!['\n'] + e0 + seq!['\n'] + e1 + seq!['\n'] + e2);
}

/// Root cause last on a three-entry chain: the outermost error is numbered
/// 0 and every entry, the last included, is newline-terminated.
pub proof fn lemma_root_cause_last_order(msgs: Seq<Seq<char>>)
    requires
        msgs.len() == 3,
    ensures
        entries_last(msgs, 0) == write_fragment(Some(0usize), false, msgs[0]).0 + seq!['\n']
            + write_fragment(Some(1usize), false, msgs[1]).0 + seq!['\n'] + write_fragment(
            Some(2usize),
            false,
            msgs[2],
        ).0 + seq!['\n'],
{
    let e0 = write_fragment(Some(0usize), false, msgs[0]).0;
    let e1 = write_fragment(Some(1usize), false, msgs[1]).0;
    let e2 = write_fragment(Some(2usize), false, msgs[2]).0;
    assert(entries_last(msgs, 3).len() == 0);
    assert(entries_last(msgs, 2) == e2 + seq!['\n'] + entries_last(msgs, 3));
    assert(entries_last(msgs, 1) == e1 + seq!['\n'] + entries_last(msgs, 2));
    assert(entries_last(msgs, 0) == e0 + seq!['\n'] + entries_last(msgs, 1));
    assert(entries_last(msgs, 0) =~= e0 + seq!['\n'] + e1 + seq!['\n'] + e2 + seq!['\n']);
}

/// A stack-trace text that opens with `stack backtrace:` is relabeled so
/// its first 7 characters read `Stack B` and the rest is unchanged, then
/// end-trimmed behind one blank line; an absent trace contributes nothing.
pub proof fn lemma_backtrace_section(t: Seq<char>)
    requires
        t.len() >= 16,
        t.take(16) == "stack backtrace:"@,
    ensures
        backtrace_block(Some(t)) == "\n\n"@ + trim_end("Stack B"@ + t.skip(7)),
        relabeled(t).take(7) == "Stack B"@,
        relabeled(t).skip(7) == t.skip(7),
        backtrace_block(None) == Seq::<char>::empty(),
{
    reveal_strlit("Stack B");
    assert(relabeled(t) == "Stack B"@ + t.skip(7));
    assert(("Stack B"@ + t.skip(7)).take(7) =~= "Stack B"@);
    assert(("Stack B"@ + t.skip(7)).skip(7) =~= t.skip(7));
}

/// With both optional sections absent, the output ends right after the
/// entry rows: no separator, no trailing blank line.
pub proof fn lemma_no_sections(msgs: Seq<Seq<char>>)
    ensures
        rendered_first(msgs, None, None) == entries_first(msgs, 0),
        rendered_last(msgs, None, None) == seq!['\n'] + entries_last(msgs, 0),
{
    assert(rendered_first(msgs, None, None) =~= entries_first(msgs, 0));
    assert(rendered_last(msgs, None, None) =~= seq!['\n'] + entries_last(msgs, 0));
}

} // verus!
