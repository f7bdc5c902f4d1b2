//! The boundary to `tracing_error`: the span-context object is opaque here,
//! and only its rendered text enters the verified renderer.

use vstd::prelude::*;

verus! {

#[verifier::external_type_specification]
#[verifier::external_body]
pub struct ExSpanTrace(tracing_error::SpanTrace);

/// Relies on `tracing_error::SpanTrace`'s `Display` implementation to render
/// the captured spans as text. Nothing is assumed of that text: it depends
/// on the subscriber that was installed when the trace was captured.
#[verifier::external_body]
pub(crate) fn span_trace_text(st: &tracing_error::SpanTrace) -> String {
    format!("{}", st)
}

} // verus!
