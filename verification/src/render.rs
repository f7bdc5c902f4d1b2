//! The chain renderer: one numbered, indented row per chain entry, in the
//! order a policy chooses, followed by the optional context and stack-trace
//! sections with exact separators.

use vstd::prelude::*;
use vstd::string::StrSliceExecFns;
use vstd::string::StringExecFns;

use crate::indent::Indented;
use crate::indent::scan_non_ws;
use crate::indent::scan_trim_end;
use crate::indent::write_fragment;
use crate::text::is_ws;
use crate::text::lemma_trim_bounds;
use crate::text::lemma_trim_end_take;
use crate::text::trim;
use crate::text::trim_end;

verus! {

/// The message texts of a chain, outermost error first.
pub open spec fn msg_views(chain: Seq<String>) -> Seq<Seq<char>> {
    chain.map_values(|m: String| m@)
}

/// The text of an optional section.
pub open spec fn opt_view(o: Option<String>) -> Option<Seq<char>> {
    match o {
        Some(t) => Some(t@),
        None => None,
    }
}

/// The entry rows of `RootCauseFirst` from traversal index `k` on: each row
/// is one newline, then the entry's trimmed message through a fresh indenter
/// numbered `k`; the chain is walked from its last element back to its first.
pub open spec fn entries_first(msgs: Seq<Seq<char>>, k: int) -> Seq<char>
    decreases msgs.len() - k,
{
    if k < 0 || k >= msgs.len() {
        Seq::<char>::empty()
    } else {
        seq!['\n'] + write_fragment(Some(k as usize), false, trim(msgs[msgs.len() - 1 - k])).0
            + entries_first(msgs, k + 1)
    }
}

/// The entry rows of `RootCauseLast` from traversal index `k` on: each row
/// is the entry's message through a fresh indenter numbered `k`, then one
/// newline; the chain is walked in its own order.
pub open spec fn entries_last(msgs: Seq<Seq<char>>, k: int) -> Seq<char>
    decreases msgs.len() - k,
{
    if k < 0 || k >= msgs.len() {
        Seq::<char>::empty()
    } else {
        write_fragment(Some(k as usize), false, msgs[k]).0 + seq!['\n'] + entries_last(
            msgs,
            k + 1,
        )
    }
}

/// The context section: nothing when absent, otherwise a blank line, the
/// literal header and the context text verbatim.
pub open spec fn context_block(ctx: Option<Seq<char>>) -> Seq<char> {
    match ctx {
        Some(t) => "\n\nContext:\n"@ + t,
        None => Seq::<char>::empty(),
    }
}

/// A captured stack-trace text with a leading `stack backtrace:` phrase is
/// relabeled so its first 7 characters read `Stack B`; any other text is
/// kept as it is.
pub open spec fn relabeled(t: Seq<char>) -> Seq<char> {
    if t.len() >= 16 && t.take(16) == "stack backtrace:"@ {
        "Stack B"@ + t.skip(7)
    } else {
        t
    }
}

/// The stack-trace section: nothing when absent, otherwise a blank line and
/// the relabeled text with its trailing whitespace trimmed.
pub open spec fn backtrace_block(bt: Option<Seq<char>>) -> Seq<char> {
    match bt {
        Some(t) => "\n\n"@ + trim_end(relabeled(t)),
        None => Seq::<char>::empty(),
    }
}

/// The whole `RootCauseFirst` block.
pub open spec fn rendered_first(
    msgs: Seq<Seq<char>>,
    ctx: Option<Seq<char>>,
    bt: Option<Seq<char>>,
) -> Seq<char> {
    entries_first(msgs, 0) + context_block(ctx) + backtrace_block(bt)
}

/// The whole `RootCauseLast` block: one newline before the first entry.
pub open spec fn rendered_last(
    msgs: Seq<Seq<char>>,
    ctx: Option<Seq<char>>,
    bt: Option<Seq<char>>,
) -> Seq<char> {
    seq!['\n'] + entries_last(msgs, 0) + context_block(ctx) + backtrace_block(bt)
}

/// Whether the text opens with the lowercase `stack backtrace:` phrase.
pub fn starts_with_stack_label(s: &str) -> (r: bool)
    ensures
        r == (s@.len() >= 16 && s@.take(16) == "stack backtrace:"@),
{
    proof {
        reveal_strlit("stack backtrace:");
    }
    let pat = "stack backtrace:";
    let n: usize = s.unicode_len();
    if n < 16 {
        return false;
    }
    let mut i: usize = 0;
    while i < 16
        invariant
            i <= 16,
            n == s@.len(),
            n >= 16,
            pat@ == "stack backtrace:"@,
            pat@.len() == 16,
            forall|j: int| 0 <= j < i ==> s@[j] == pat@[j],
        decreases 16 - i,
    {
        if s.get_char(i) != pat.get_char(i) {
            assert(s@.take(16) != "stack backtrace:"@) by {
                assert(s@.take(16)[i as int] != "stack backtrace:"@[i as int]);
            }
            return false;
        }
        i = i + 1;
    }
    proof {
        assert(s@.take(16) =~= pat@);
    }
    true
}

/// The relabeled, end-trimmed form of a captured stack-trace text.
pub fn relabel_backtrace(bt: &str) -> (r: String)
    ensures
        r@ == trim_end(relabeled(bt@)),
{
    let n: usize = bt.unicode_len();
    let mut out = String::new();
    if starts_with_stack_label(bt) {
        out.append("Stack B");
        let b: usize = scan_trim_end(bt, 7, n);
        out.append(bt.substring_char(7, b));
        proof {
            reveal_strlit("Stack B");
            reveal_strlit("stack backtrace:");
            let u = "Stack B"@ + bt@.skip(7);
            assert(!is_ws(u[6]));
            assert(forall|j: int| b <= j < u.len() ==> is_ws(u[j]));
            if b > 7 {
                assert(!is_ws(u[b - 1]));
            }
            lemma_trim_end_take(u, b as int);
            assert(u.take(b as int) =~= "Stack B"@ + bt@.subrange(7, b as int));
            assert(out@ =~= trim_end(relabeled(bt@)));
        }
    } else {
        let b: usize = scan_trim_end(bt, 0, n);
        out.append(bt.substring_char(0, b));
        proof {
            if b > 0 {
                assert(!is_ws(bt@[b - 1]));
            }
            lemma_trim_end_take(bt@, b as int);
            assert(out@ =~= trim_end(relabeled(bt@)));
        }
    }
    out
}

/// The inputs of one render: the chain's message texts (outermost error
/// first), the optional span-context text, and the stack-trace text when
/// one was captured — absent otherwise, whatever the reason.
pub struct ErrorInfo {
    pub chain: Vec<String>,
    pub span_backtrace: Option<String>,
    pub backtrace: Option<String>,
}

impl ErrorInfo {
    pub open spec fn msgs(&self) -> Seq<Seq<char>> {
        msg_views(self.chain@)
    }

    pub open spec fn ctx_text(&self) -> Option<Seq<char>> {
        opt_view(self.span_backtrace)
    }

    pub open spec fn bt_text(&self) -> Option<Seq<char>> {
        opt_view(self.backtrace)
    }
}

/// Appends the optional sections after the entry rows.
fn push_sections(ctx: &Option<String>, bt: &Option<String>, out: &mut String)
    ensures
        final(out)@ == old(out)@ + context_block(opt_view(*ctx)) + backtrace_block(opt_view(*bt)),
{
    if let Some(c) = ctx {
        out.append("\n\nContext:\n");
        out.append(c.as_str());
    }
    if let Some(b) = bt {
        out.append("\n\n");
        let relabeled_text = relabel_backtrace(b.as_str());
        out.append(relabeled_text.as_str());
    }
    proof {
        assert(out@ =~= old(out)@ + context_block(opt_view(*ctx)) + backtrace_block(
            opt_view(*bt),
        ));
    }
}

/// Renders the root cause first: the deepest cause is numbered 0 and each
/// entry's message is trimmed before it goes through the indenter; no entry
/// is newline-terminated, each after the first is newline-preceded.
pub(crate) fn render_first(
    chain: &Vec<String>,
    ctx: &Option<String>,
    bt: &Option<String>,
    out: &mut String,
)
    ensures
        final(out)@ == old(out)@ + rendered_first(
            msg_views(chain@),
            opt_view(*ctx),
            opt_view(*bt),
        ),
{
    let ghost msgs = msg_views(chain@);
    let len: usize = chain.len();
    let mut k: usize = 0;
    let ghost mut acc = Seq::<char>::empty();
    proof {
        assert(out@ =~= old(out)@ + acc);
    }
    while k < len
        invariant
            k <= len,
            len == chain@.len(),
            msgs == msg_views(chain@),
            out@ == old(out)@ + acc,
            entries_first(msgs, 0) == acc + entries_first(msgs, k as int),
        decreases len - k,
    {
        let msg: &String = &chain[len - 1 - k];
        let ghost m = msgs[len - 1 - k];
        proof {
            assert(m == msg@);
        }
        out.append("\n");
        let mn: usize = msg.as_str().unicode_len();
        let a: usize = scan_non_ws(msg.as_str(), 0, mn);
        let b: usize = scan_trim_end(msg.as_str(), a, mn);
        proof {
            reveal_strlit("\n");
            lemma_trim_bounds(m, a as int, b as int);
            assert(m.subrange(a as int, b as int) == trim(m));
        }
        let mut indenter = Indented::numbered(k);
        indenter.write_str(msg.as_str().substring_char(a, b), out);
        proof {
            let row = seq!['\n'] + write_fragment(Some(k), false, trim(m)).0;
            assert(out@ =~= old(out)@ + (acc + row));
            assert(entries_first(msgs, k as int) == row + entries_first(msgs, k + 1));
            assert(acc + (row + entries_first(msgs, k + 1)) =~= (acc + row) + entries_first(
                msgs,
                k + 1,
            ));
            acc = acc + row;
        }
        k = k + 1;
    }
    push_sections(ctx, bt, out);
    proof {
        assert(out@ =~= old(out)@ + rendered_first(msgs, opt_view(*ctx), opt_view(*bt)));
    }
}

/// Renders the outermost error first: it is numbered 0, messages go through
/// the indenter untrimmed, and every entry row, the last included, is
/// newline-terminated.
pub(crate) fn render_last(chain: &Vec<String>, ctx: &Option<String>, bt: &Option<String>, out: &mut String)
    ensures
        final(out)@ == old(out)@ + rendered_last(
            msg_views(chain@),
            opt_view(*ctx),
            opt_view(*bt),
        ),
{
    let ghost msgs = msg_views(chain@);
    let len: usize = chain.len();
    out.append("\n");
    let mut k: usize = 0;
    let ghost mut acc = seq!['\n'];
    proof {
        reveal_strlit("\n");
        assert(out@ =~= old(out)@ + acc);
    }
    while k < len
        invariant
            k <= len,
            len == chain@.len(),
            msgs == msg_views(chain@),
            out@ == old(out)@ + acc,
            seq!['\n'] + entries_last(msgs, 0) == acc + entries_last(msgs, k as int),
        decreases len - k,
    {
        let msg: &String = &chain[k];
        let ghost m = msgs[k as int];
        proof {
            assert(m == msg@);
        }
        let mut indenter = Indented::numbered(k);
        indenter.write_str(msg.as_str(), out);
        out.append("\n");
        proof {
            reveal_strlit("\n");
            let row = write_fragment(Some(k), false, m).0 + seq!['\n'];
            assert(out@ =~= old(out)@ + (acc + row));
            assert(entries_last(msgs, k as int) == write_fragment(Some(k), false, m).0
                + seq!['\n'] + entries_last(msgs, k + 1));
            assert(acc + entries_last(msgs, k as int) =~= (acc + row) + entries_last(
                msgs,
                k + 1,
            ));
            acc = acc + row;
        }
        k = k + 1;
    }
    push_sections(ctx, bt, out);
    proof {
        assert(out@ =~= old(out)@ + rendered_last(msgs, opt_view(*ctx), opt_view(*bt)));
    }
}

/// The ordering policy that numbers the deepest cause 0.
pub struct RootCauseFirst;

/// The ordering policy that numbers the outermost error 0.
pub struct RootCauseLast;

impl RootCauseFirst {
    /// Appends the full block for `info`, root cause first.
    pub fn fmt_error(info: &ErrorInfo, out: &mut String)
        ensures
            final(out)@ == old(out)@ + rendered_first(info.msgs(), info.ctx_text(), info.bt_text()),
    {
        render_first(&info.chain, &info.span_backtrace, &info.backtrace, out);
    }
}

impl RootCauseLast {
    /// Appends the full block for `info`, outermost error first.
    pub fn fmt_error(info: &ErrorInfo, out: &mut String)
        ensures
            final(out)@ == old(out)@ + rendered_last(info.msgs(), info.ctx_text(), info.bt_text()),
    {
        render_last(&info.chain, &info.span_backtrace, &info.backtrace, out);
    }
}

} // verus!
