use errfmt::ErrorImpl;
use errfmt::ErrorInfo;
use errfmt::RootCauseFirst;
use errfmt::RootCauseLast;

fn three_entry_info() -> ErrorInfo {
    ErrorInfo {
        chain: vec!["outer".to_string(), "middle".to_string(), "root".to_string()],
        span_backtrace: None,
        backtrace: None,
    }
}

#[test]
fn root_cause_first_numbers_deepest_cause_zero() {
    let info = three_entry_info();
    let mut out = String::new();
    RootCauseFirst::fmt_error(&info, &mut out);
    assert_eq!(out, "\n    0: root\n    1: middle\n    2: outer");
}

#[test]
fn root_cause_last_numbers_outermost_zero() {
    let info = three_entry_info();
    let mut out = String::new();
    RootCauseLast::fmt_error(&info, &mut out);
    assert_eq!(out, "\n    0: outer\n    1: middle\n    2: root\n");
}

#[test]
fn rendering_twice_is_byte_identical() {
    let info = ErrorInfo {
        chain: vec!["a\nb".to_string(), "c".to_string()],
        span_backtrace: Some("span ctx".to_string()),
        backtrace: Some("stack backtrace:\n   0: f".to_string()),
    };
    let mut first_pass = String::new();
    RootCauseFirst::fmt_error(&info, &mut first_pass);
    let mut second_pass = String::new();
    RootCauseFirst::fmt_error(&info, &mut second_pass);
    assert_eq!(first_pass, second_pass);
}

#[test]
fn context_section_follows_entries() {
    let info = ErrorInfo {
        chain: vec!["e".to_string()],
        span_backtrace: Some("in span\n".to_string()),
        backtrace: None,
    };
    let mut out = String::new();
    RootCauseFirst::fmt_error(&info, &mut out);
    assert_eq!(out, "\n    0: e\n\nContext:\nin span\n");
}

#[test]
fn backtrace_is_relabeled_and_end_trimmed() {
    let info = ErrorInfo {
        chain: vec!["e".to_string()],
        span_backtrace: None,
        backtrace: Some("stack backtrace:\n   0: main\n  \n".to_string()),
    };
    let mut out = String::new();
    RootCauseFirst::fmt_error(&info, &mut out);
    assert_eq!(out, "\n    0: e\n\nStack Backtrace:\n   0: main");
}

#[test]
fn backtrace_without_label_phrase_kept_verbatim() {
    let info = ErrorInfo {
        chain: vec!["e".to_string()],
        span_backtrace: None,
        backtrace: Some("plain trace text  ".to_string()),
    };
    let mut out = String::new();
    RootCauseFirst::fmt_error(&info, &mut out);
    assert_eq!(out, "\n    0: e\n\nplain trace text");
}

#[test]
fn absent_sections_add_no_trailing_bytes() {
    let info = ErrorInfo {
        chain: vec!["only".to_string()],
        span_backtrace: None,
        backtrace: None,
    };
    let mut out = String::new();
    RootCauseFirst::fmt_error(&info, &mut out);
    assert_eq!(out, "\n    0: only");

    let mut out_last = String::new();
    RootCauseLast::fmt_error(&info, &mut out_last);
    assert_eq!(out_last, "\n    0: only\n");
}

#[test]
fn both_sections_in_order() {
    let info = ErrorInfo {
        chain: vec!["e".to_string()],
        span_backtrace: Some("ctx".to_string()),
        backtrace: Some("stack backtrace: none".to_string()),
    };
    let mut out = String::new();
    RootCauseLast::fmt_error(&info, &mut out);
    assert_eq!(out, "\n    0: e\n\n\nContext:\nctx\n\nStack Backtrace: none");
}

#[test]
fn first_ordering_trims_entry_messages() {
    let info = ErrorInfo {
        chain: vec!["  padded  \n".to_string()],
        span_backtrace: None,
        backtrace: None,
    };
    let mut out = String::new();
    RootCauseFirst::fmt_error(&info, &mut out);
    assert_eq!(out, "\n    0: padded");
}

#[test]
fn last_ordering_keeps_trailing_message_lines() {
    let info = ErrorInfo {
        chain: vec!["padded  \n".to_string()],
        span_backtrace: None,
        backtrace: None,
    };
    let mut out = String::new();
    RootCauseLast::fmt_error(&info, &mut out);
    assert_eq!(out, "\n    0: padded\n       \n");
}

#[test]
fn display_shows_outermost_message() {
    let e = ErrorImpl::new(
        vec!["outer".to_string(), "middle".to_string(), "root".to_string()],
        None,
        None,
    );
    assert_eq!(e.display(false), "outer");
}

#[test]
fn alternate_display_joins_causes() {
    let e = ErrorImpl::new(
        vec!["outer".to_string(), "middle".to_string(), "root".to_string()],
        None,
        None,
    );
    assert_eq!(e.display(true), "outer: middle: root");
}

#[test]
fn debug_renders_full_block_root_cause_first() {
    let e = ErrorImpl::new(
        vec!["outer\nmore".to_string(), "root".to_string()],
        None,
        None,
    );
    assert_eq!(e.debug(), "\n    0: root\n    1: outer\n       more");
}

#[test]
fn span_trace_context_is_rendered() {
    let st = tracing_error::SpanTrace::capture();
    let e = ErrorImpl::with_span_trace(vec!["boom".to_string()], Some(&st), None);
    let out = e.debug();
    assert!(out.starts_with("\n    0: boom\n\nContext:\n"));
}

#[test]
fn without_span_trace_no_context_section() {
    let e = ErrorImpl::with_span_trace(vec!["boom".to_string()], None, None);
    assert_eq!(e.debug(), "\n    0: boom");
}

#[test]
fn empty_message_entry_contributes_blank_row() {
    let info = ErrorInfo {
        chain: vec!["".to_string(), "root".to_string()],
        span_backtrace: None,
        backtrace: None,
    };
    let mut out = String::new();
    RootCauseFirst::fmt_error(&info, &mut out);
    assert_eq!(out, "\n    0: root\n");

    let mut out_last = String::new();
    RootCauseLast::fmt_error(&info, &mut out_last);
    assert_eq!(out_last, "\n\n    1: root\n");
}
