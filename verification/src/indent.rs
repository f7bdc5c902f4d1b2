//! The indenting writer: rewrites a possibly multi-line text stream so that
//! the first non-blank line carries a right-aligned label and every later
//! line is indented to line up under it.

use vstd::prelude::*;
use vstd::string::StrSliceExecFns;
use vstd::string::StringExecFns;

use crate::text::dec_rep;
use crate::text::is_ws;
use crate::text::is_ws_char;
use crate::text::lemma_split_lines_single;
use crate::text::lemma_split_lines_step;
use crate::text::lemma_trim_all_ws;
use crate::text::lemma_trim_bounds;
use crate::text::spaces;
use crate::text::split_lines;
use crate::text::trim;

verus! {

/// The digit sequence right-justified in a field of width 5, as `{: >5}`
/// formatting pads it; a wider sequence overflows the field unchanged.
pub open spec fn pad5(digits: Seq<char>) -> Seq<char> {
    if digits.len() >= 5 {
        digits
    } else {
        spaces((5 - digits.len()) as nat) + digits
    }
}

/// The prefix written before the first non-blank line: a 5-wide numeric
/// label with `: ` when numbered, four spaces otherwise.
pub open spec fn first_prefix(ind: Option<usize>) -> Seq<char> {
    match ind {
        Some(n) => pad5(dec_rep(n as nat)) + seq![':', ' '],
        None => spaces(4),
    }
}

/// The indent written after each newline: 7 spaces under a numeric label
/// (the width of `NNNNN: `), 4 under a blank one.
pub open spec fn cont_indent(ind: Option<usize>) -> Seq<char> {
    match ind {
        Some(_) => spaces(7),
        None => spaces(4),
    }
}

/// What one write call emits, line by line, and the `started` flag it leaves.
///
/// `started` says whether an earlier line already carried the prefix;
/// `first` says whether the head line is the first line of this fragment
/// (only a line after an explicit newline of the same fragment gets the
/// continuation indent). Before the prefix is placed, lines are trimmed and
/// blank ones are skipped; afterwards lines pass through verbatim.
pub open spec fn write_lines(
    ind: Option<usize>,
    started: bool,
    first: bool,
    lines: Seq<Seq<char>>,
) -> (Seq<char>, bool)
    decreases lines.len(),
{
    if lines.len() == 0 {
        (Seq::<char>::empty(), started)
    } else {
        let l = lines[0];
        if !started {
            let t = trim(l);
            if t.len() == 0 {
                write_lines(ind, false, false, lines.drop_first())
            } else {
                let rest = write_lines(ind, true, false, lines.drop_first());
                (first_prefix(ind) + t + rest.0, rest.1)
            }
        } else {
            let head = if !first {
                seq!['\n'] + cont_indent(ind) + l
            } else {
                l
            };
            let rest = write_lines(ind, true, false, lines.drop_first());
            (head + rest.0, rest.1)
        }
    }
}

/// What one write call of the whole fragment `s` emits.
pub open spec fn write_fragment(ind: Option<usize>, started: bool, s: Seq<char>) -> (
    Seq<char>,
    bool,
) {
    write_lines(ind, started, true, split_lines(s))
}

/// One unfolding step of `write_lines` on a non-empty line list.
pub proof fn lemma_write_lines_unfold(
    ind: Option<usize>,
    started: bool,
    first: bool,
    l: Seq<char>,
    rest: Seq<Seq<char>>,
)
    ensures
        !started && trim(l).len() == 0 ==> write_lines(ind, started, first, seq![l] + rest)
            == write_lines(ind, false, false, rest),
        !started && trim(l).len() > 0 ==> write_lines(ind, started, first, seq![l] + rest) == (
            first_prefix(ind) + trim(l) + write_lines(ind, true, false, rest).0,
            write_lines(ind, true, false, rest).1,
        ),
        started && first ==> write_lines(ind, started, first, seq![l] + rest) == (
            l + write_lines(ind, true, false, rest).0,
            write_lines(ind, true, false, rest).1,
        ),
        started && !first ==> write_lines(ind, started, first, seq![l] + rest) == (
            seq!['\n'] + cont_indent(ind) + l + write_lines(ind, true, false, rest).0,
            write_lines(ind, true, false, rest).1,
        ),
{
    let lines = seq![l] + rest;
    assert(lines.len() > 0);
    assert(lines[0] == l);
    assert(lines.drop_first() =~= rest);
    if !started {
        if trim(l).len() > 0 {
            let r = write_lines(ind, true, false, rest);
            assert(write_lines(ind, started, first, lines) == (first_prefix(ind) + trim(l) + r.0, r.1));
        }
    } else {
        let r = write_lines(ind, true, false, rest);
        if first {
            assert(write_lines(ind, started, first, lines) == (l + r.0, r.1));
        } else {
            assert(write_lines(ind, started, first, lines) == (
                seq!['\n'] + cont_indent(ind) + l + r.0,
                r.1,
            ));
        }
    }
}

/// Appends `k` spaces to `out`.
pub fn push_spaces(k: usize, out: &mut String)
    ensures
        final(out)@ == old(out)@ + spaces(k as nat),
{
    let mut i: usize = 0;
    proof {
        reveal_strlit(" ");
    }
    while i < k
        invariant
            i <= k,
            out@ == old(out)@ + spaces(i as nat),
        decreases k - i,
    {
        out.append(" ");
        i = i + 1;
        proof {
            reveal_strlit(" ");
            assert(out@ =~= old(out)@ + spaces(i as nat));
        }
    }
}

/// Appends the numeric label `n` right-justified to width 5, then `: `.
pub fn push_num_label(n: usize, out: &mut String)
    ensures
        final(out)@ == old(out)@ + first_prefix(Some(n)),
{
    let mut digits = String::new();
    crate::text::push_dec(n, &mut digits);
    let len: usize = digits.as_str().unicode_len();
    if len < 5 {
        push_spaces(5 - len, out);
    }
    out.append(digits.as_str());
    out.append(": ");
    proof {
        reveal_strlit(": ");
        assert(out@ =~= old(out)@ + first_prefix(Some(n)));
    }
}

/// The char index of the end of the line that starts at `pos`: the next
/// newline, or the end of the text.
pub fn find_line_end(s: &str, pos: usize) -> (end: usize)
    requires
        pos <= s@.len(),
    ensures
        pos <= end <= s@.len(),
        forall|j: int| pos <= j < end ==> s@[j] != '\n',
        end < s@.len() ==> s@[end as int] == '\n',
{
    let n: usize = s.unicode_len();
    let mut end: usize = pos;
    while end < n && s.get_char(end) != '\n'
        invariant
            pos <= end <= n,
            n == s@.len(),
            forall|j: int| pos <= j < end ==> s@[j] != '\n',
        decreases n - end,
    {
        end = end + 1;
    }
    end
}

/// The first index in `[from, to)` whose character is not whitespace,
/// or `to` if the whole range is whitespace.
pub fn scan_non_ws(s: &str, from: usize, to: usize) -> (a: usize)
    requires
        from <= to <= s@.len(),
    ensures
        from <= a <= to,
        forall|j: int| from <= j < a ==> is_ws(s@[j]),
        a < to ==> !is_ws(s@[a as int]),
{
    let mut a: usize = from;
    while a < to && is_ws_char(s.get_char(a))
        invariant
            from <= a <= to,
            to <= s@.len(),
            forall|j: int| from <= j < a ==> is_ws(s@[j]),
        decreases to - a,
    {
        a = a + 1;
    }
    a
}

/// One past the last non-whitespace index in `[from, to)`, or `from` if the
/// whole range is whitespace.
pub fn scan_trim_end(s: &str, from: usize, to: usize) -> (b: usize)
    requires
        from <= to <= s@.len(),
    ensures
        from <= b <= to,
        forall|j: int| b <= j < to ==> is_ws(s@[j]),
        b > from ==> !is_ws(s@[b - 1]),
{
    let mut b: usize = to;
    while b > from && is_ws_char(s.get_char(b - 1))
        invariant
            from <= b <= to,
            to <= s@.len(),
            forall|j: int| b <= j < to ==> is_ws(s@[j]),
        decreases b,
    {
        b = b - 1;
    }
    b
}

/// A stateful text sink that prefixes the first non-blank line it sees with
/// a label and indents every following line to the label's width.
pub struct Indented {
    /// The numeric label, or `None` for a plain 4-space prefix.
    pub ind: Option<usize>,
    /// Whether a non-blank line has already been written.
    pub started: bool,
}

impl Indented {
    /// A fresh indenter with the numeric label `ind`.
    pub fn numbered(ind: usize) -> (r: Indented)
        ensures
            r.ind == Some(ind),
            r.started == false,
    {
        Indented { ind: Some(ind), started: false }
    }

    /// A fresh indenter with the blank label.
    pub fn unnumbered() -> (r: Indented)
        ensures
            r.ind is None,
            r.started == false,
    {
        Indented { ind: None, started: false }
    }

    /// Writes one fragment through the indenter onto `out`.
    #[verifier::rlimit(100)]
    pub fn write_str(&mut self, s: &str, out: &mut String)
        ensures
            final(self).ind == old(self).ind,
            final(out)@ == old(out)@ + write_fragment(old(self).ind, old(self).started, s@).0,
            final(self).started == write_fragment(old(self).ind, old(self).started, s@).1,
    {
        let ghost ind0 = self.ind;
        let ghost st0 = self.started;
        let ghost target = write_fragment(ind0, st0, s@);
        let n: usize = s.unicode_len();
        let mut pos: usize = 0;
        let mut first: bool = true;
        let ghost mut acc = Seq::<char>::empty();
        proof {
            assert(s@.skip(0) == s@);
            assert(out@ =~= old(out)@ + acc);
        }
        loop
            invariant_except_break
                pos <= n,
                n == s@.len(),
                self.ind == ind0,
                out@ == old(out)@ + acc,
                target == write_fragment(ind0, st0, s@),
                ({
                    let rem = write_lines(ind0, self.started, first, split_lines(s@.skip(pos as int)));
                    target.0 == acc + rem.0 && target.1 == rem.1
                }),
            ensures
                self.ind == ind0,
                out@ == old(out)@ + target.0,
                self.started == target.1,
            decreases n - pos,
        {
            let end: usize = find_line_end(s, pos);
            let ghost stb = self.started;
            let ghost firstb = first;
            let ghost acc0 = acc;
            let ghost rem0 = s@.skip(pos as int);
            let ghost l = s@.subrange(pos as int, end as int);
            let ghost rest_lines = if end < n {
                split_lines(s@.skip(end + 1))
            } else {
                Seq::<Seq<char>>::empty()
            };
            proof {
                if end < n {
                    lemma_split_lines_step(rem0, end - pos);
                    assert(rem0.take(end - pos) =~= l);
                    assert(rem0.skip(end - pos + 1) =~= s@.skip(end + 1));
                    assert(split_lines(rem0) == seq![l] + rest_lines);
                } else {
                    assert(forall|j: int| 0 <= j < rem0.len() ==> rem0[j] == s@[pos + j]);
                    lemma_split_lines_single(rem0);
                    assert(rem0 =~= l);
                    assert(seq![l] + rest_lines =~= seq![l]);
                    assert(split_lines(rem0) == seq![l] + rest_lines);
                }
                lemma_write_lines_unfold(ind0, stb, firstb, l, rest_lines);
            }
            if !self.started {
                let a: usize = scan_non_ws(s, pos, end);
                if a == end {
                    // the line is blank: skip it without placing the label
                    proof {
                        assert(forall|j: int| 0 <= j < l.len() ==> is_ws(l[j]));
                        lemma_trim_all_ws(l);
                    }
                } else {
                    let b: usize = scan_trim_end(s, a, end);
                    proof {
                        assert(!is_ws(s@[a as int]));
                        assert(b > a) by {
                            if b == a {
                                assert(is_ws(s@[a as int]));
                            }
                        }
                        assert(forall|j: int| 0 <= j < a - pos ==> is_ws(l[j]));
                        assert(forall|j: int| b - pos <= j < l.len() ==> is_ws(l[j]));
                        assert(!is_ws(l[a - pos]));
                        assert(!is_ws(l[b - pos - 1]));
                        lemma_trim_bounds(l, a - pos, b - pos);
                        assert(l.subrange(a - pos, b - pos) =~= s@.subrange(a as int, b as int));
                    }
                    self.started = true;
                    match self.ind {
                        Some(i) => push_num_label(i, out),
                        None => push_spaces(4, out),
                    }
                    out.append(s.substring_char(a, b));
                    proof {
                        acc = acc + first_prefix(ind0) + trim(l);
                        assert(out@ =~= old(out)@ + acc);
                    }
                }
            } else {
                if !first {
                    out.append("\n");
                    match self.ind {
                        Some(_) => push_spaces(7, out),
                        None => push_spaces(4, out),
                    }
                }
                out.append(s.substring_char(pos, end));
                proof {
                    reveal_strlit("\n");
                    if !first {
                        acc = acc + seq!['\n'] + cont_indent(ind0) + l;
                    } else {
                        acc = acc + l;
                    }
                    assert(out@ =~= old(out)@ + acc);
                }
            }
            proof {
                let rem_old = write_lines(ind0, stb, firstb, seq![l] + rest_lines);
                let rem_new = write_lines(ind0, self.started, false, rest_lines);
                assert(target.0 == acc0 + rem_old.0);
                if !stb {
                    if trim(l).len() == 0 {
                        assert(acc == acc0);
                        assert(rem_old == rem_new);
                    } else {
                        assert(acc0 + (first_prefix(ind0) + trim(l) + rem_new.0) =~= acc
                            + rem_new.0);
                    }
                } else {
                    if firstb {
                        assert(acc0 + (l + rem_new.0) =~= acc + rem_new.0);
                    } else {
                        assert(acc0 + (seq!['\n'] + cont_indent(ind0) + l + rem_new.0) =~= acc
                            + rem_new.0);
                    }
                }
                assert(target.0 == acc + rem_new.0);
                assert(target.1 == rem_new.1);
            }
            if end == n {
                proof {
                    assert(write_lines(ind0, self.started, false, rest_lines)
                        == (Seq::<char>::empty(), self.started));
                    assert(target.0 =~= acc);
                }
                break;
            }
            pos = end + 1;
            first = false;
        }
    }
}

} // verus!
