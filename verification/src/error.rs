//! The error container's two rendering entry points: the compact one-line
//! display form and the full indented debug block.

use vstd::prelude::*;
use vstd::string::StringExecFns;

use crate::render::msg_views;
use crate::render::opt_view;
use crate::render::render_first;
use crate::render::rendered_first;
use crate::span_trace::span_trace_text;

verus! {

/// The causes after the outermost error, each joined on with `: `.
pub open spec fn joined_from(msgs: Seq<Seq<char>>, k: int) -> Seq<char>
    decreases msgs.len() - k,
{
    if k < 0 || k >= msgs.len() {
        Seq::<char>::empty()
    } else {
        ": "@ + msgs[k] + joined_from(msgs, k + 1)
    }
}

/// The compact display form: the outermost message alone, or, in the
/// alternate verbose mode, every further cause appended with `: `.
pub open spec fn display_text(msgs: Seq<Seq<char>>, alternate: bool) -> Seq<char> {
    if alternate {
        msgs[0] + joined_from(msgs, 1)
    } else {
        msgs[0]
    }
}

/// An error value as this renderer consumes it: the display texts of its
/// cause chain (the error itself first, the root cause last), the rendered
/// span-context text if one was attached, and the stack-trace text if one
/// was captured.
pub struct ErrorImpl {
    chain: Vec<String>,
    span_backtrace: Option<String>,
    backtrace: Option<String>,
}

impl ErrorImpl {
    /// A chain always holds at least the error's own message.
    pub closed spec fn wf(&self) -> bool {
        self.chain@.len() >= 1
    }

    pub closed spec fn msgs(&self) -> Seq<Seq<char>> {
        msg_views(self.chain@)
    }

    pub closed spec fn ctx_text(&self) -> Option<Seq<char>> {
        opt_view(self.span_backtrace)
    }

    pub closed spec fn bt_text(&self) -> Option<Seq<char>> {
        opt_view(self.backtrace)
    }

    /// Builds the container from already-rendered texts.
    pub fn new(
        chain: Vec<String>,
        span_backtrace: Option<String>,
        backtrace: Option<String>,
    ) -> (r: ErrorImpl)
        requires
            chain@.len() >= 1,
        ensures
            r.wf(),
            r.msgs() == msg_views(chain@),
            r.ctx_text() == opt_view(span_backtrace),
            r.bt_text() == opt_view(backtrace),
    {
        ErrorImpl { chain, span_backtrace, backtrace }
    }

    /// Builds the container from a captured span trace, rendering it to
    /// text at this boundary; the text itself is whatever the trace's own
    /// formatting produces.
    pub fn with_span_trace(
        chain: Vec<String>,
        span_trace: Option<&tracing_error::SpanTrace>,
        backtrace: Option<String>,
    ) -> (r: ErrorImpl)
        requires
            chain@.len() >= 1,
        ensures
            r.wf(),
            r.msgs() == msg_views(chain@),
            r.bt_text() == opt_view(backtrace),
            r.ctx_text() is Some <==> span_trace is Some,
    {
        let span_backtrace = match span_trace {
            Some(st) => Some(span_trace_text(st)),
            None => None,
        };
        ErrorImpl { chain, span_backtrace, backtrace }
    }

    /// The compact display form: the outermost message, with every further
    /// cause joined on with `: ` in the alternate mode.
    pub fn display(&self, alternate: bool) -> (r: String)
        requires
            self.wf(),
        ensures
            r@ == display_text(self.msgs(), alternate),
    {
        let ghost msgs = self.msgs();
        let mut r = String::new();
        let first: &String = &self.chain[0];
        r.append(first.as_str());
        proof {
            assert(r@ =~= msgs[0]);
        }
        if alternate {
            let len: usize = self.chain.len();
            let mut k: usize = 1;
            while k < len
                invariant
                    1 <= k <= len,
                    len == self.chain@.len(),
                    msgs == self.msgs(),
                    display_text(msgs, true) == r@ + joined_from(msgs, k as int),
                decreases len - k,
            {
                let cause: &String = &self.chain[k];
                r.append(": ");
                r.append(cause.as_str());
                proof {
                    assert(joined_from(msgs, k as int) == ": "@ + msgs[k as int] + joined_from(
                        msgs,
                        k + 1,
                    ));
                    assert(display_text(msgs, true) =~= r@ + joined_from(msgs, k + 1));
                }
                k = k + 1;
            }
            proof {
                assert(display_text(msgs, true) =~= r@);
            }
        }
        r
    }

    /// The full debug block, root cause first.
    pub fn debug(&self) -> (r: String)
        ensures
            r@ == rendered_first(self.msgs(), self.ctx_text(), self.bt_text()),
    {
        let mut out = String::new();
        render_first(&self.chain, &self.span_backtrace, &self.backtrace, &mut out);
        proof {
            assert(out@ =~= rendered_first(self.msgs(), self.ctx_text(), self.bt_text()));
        }
        out
    }
}

} // verus!
