//! Tests for the orchestration decisions: request selection, the expansion
//! command line, outcome classification, scroll state and event dispatch.

use croc_look::cmd::{
    after_failure, dispatch, event_for_input, expand_command, expand_outcome, format_outcome,
    locate, look_outcome, request_message, select_request, Action, Args, Event, KeyPress,
    LookError, LoopStep, SearchRequest, TermInput,
};
use croc_look::scroll::{line_metrics, Scroll};
use croc_look::token::Token;

fn args_with(
    trait_impl: Option<&str>,
    structure: Option<&str>,
    function: Option<&str>,
) -> Args {
    Args {
        trait_impl: trait_impl.map(|s| s.to_string()),
        binary: None,
        path: None,
        integration_test: None,
        structure: structure.map(|s| s.to_string()),
        function: function.map(|s| s.to_string()),
        watch: None,
    }
}

/// The interface selector wins and carries the structure as its filter; then
/// the structure selector; then the function selector; none is an error.
#[test]
fn request_selection_priority() {
    assert_eq!(
        select_request(&args_with(Some("Show"), Some("Bar"), Some("f"))),
        Some(SearchRequest::InterfaceImpl(
            "Show".to_string(),
            Some("Bar".to_string())
        ))
    );
    assert_eq!(
        select_request(&args_with(None, Some("Bar"), Some("f"))),
        Some(SearchRequest::TypeDefinition("Bar".to_string()))
    );
    assert_eq!(
        select_request(&args_with(None, None, Some("f"))),
        Some(SearchRequest::Function("f".to_string()))
    );
    assert_eq!(select_request(&args_with(None, None, None)), None);
}

/// The expansion messages name the request exactly.
#[test]
fn request_messages_are_exact() {
    assert_eq!(
        request_message(&SearchRequest::TypeDefinition("Foo".to_string())),
        "Expanding struct: Foo"
    );
    assert_eq!(
        request_message(&SearchRequest::Function("add".to_string())),
        "Expanding function: add"
    );
    assert_eq!(
        request_message(&SearchRequest::InterfaceImpl("Show".to_string(), None)),
        "Expanding trait: Show"
    );
    assert_eq!(
        request_message(&SearchRequest::InterfaceImpl(
            "Show".to_string(),
            Some("Bar".to_string())
        )),
        "Expanding trait: Show for Bar"
    );
}

/// A request with no matching name yields no result through the dispatcher.
#[test]
fn locate_dispatcher_reports_not_found() {
    let code: Vec<Token> = vec![Token::Ident("nothing".to_string())];
    assert_eq!(
        locate(&SearchRequest::TypeDefinition("Foo".to_string()), &code),
        None
    );
    assert_eq!(
        locate(&SearchRequest::Function("add".to_string()), &code),
        None
    );
    assert_eq!(
        locate(
            &SearchRequest::InterfaceImpl("Show".to_string(), None),
            &code
        ),
        None
    );
    assert_eq!(
        look_outcome(locate(
            &SearchRequest::TypeDefinition("Foo".to_string()),
            &code
        )),
        Err(LookError::NotFound)
    );
}

/// The expansion command line: a path routes through the dedicated tool, a
/// binary names the target, and the library target is the default.
#[test]
fn expand_command_lines() {
    let mut a = args_with(None, None, None);
    assert_eq!(
        expand_command(&a),
        vec![
            "rustup",
            "run",
            "nightly",
            "cargo",
            "rustc",
            "--lib",
            "--profile=check",
            "--",
            "-Zunpretty=expanded"
        ]
    );
    a.binary = Some("tool".to_string());
    assert_eq!(
        expand_command(&a),
        vec![
            "rustup",
            "run",
            "nightly",
            "cargo",
            "rustc",
            "--bin",
            "tool",
            "--profile=check",
            "--",
            "-Zunpretty=expanded"
        ]
    );
    a.path = Some("src/lib.rs".to_string());
    assert_eq!(expand_command(&a), vec!["cargo", "expand", "src/lib.rs"]);
}

/// Subprocess outcomes map to the typed error taxonomy, keeping both
/// captured streams.
#[test]
fn outcome_classification() {
    assert_eq!(
        expand_outcome(true, "out".to_string(), "err".to_string()),
        Ok("out".to_string())
    );
    assert_eq!(
        expand_outcome(false, "out".to_string(), "err".to_string()),
        Err(LookError::ExpansionFailed {
            stdout: "out".to_string(),
            stderr: "err".to_string()
        })
    );
    assert_eq!(
        format_outcome(false, "o".to_string(), "e".to_string()),
        Err(LookError::FormattingFailed {
            stdout: "o".to_string(),
            stderr: "e".to_string()
        })
    );
    assert_eq!(
        format_outcome(true, "pretty".to_string(), String::new()),
        Ok("pretty".to_string())
    );
    assert_eq!(look_outcome(Some("hit".to_string())), Ok("hit".to_string()));
    // the channel failure class exists for the watch loop's teardown path
    assert_ne!(LookError::DispatchFailed, LookError::NotFound);
}

/// Scroll moves stay within their bounds in every direction.
#[test]
fn scroll_bounds() {
    let mut s = Scroll::new(2, 30);
    assert_eq!(s.offset(), (0, 0));
    s.scroll_up();
    s.scroll_up();
    s.scroll_up();
    assert_eq!(s.offset(), (2, 0));
    s.scroll_down();
    s.scroll_down();
    s.scroll_down();
    assert_eq!(s.offset(), (0, 0));
    // screen narrower than the widest line: room to scroll right
    s.scroll_right(20);
    assert_eq!(s.offset(), (0, 1));
    // screen wide enough: no movement
    s.scroll_right(40);
    assert_eq!(s.offset(), (0, 1));
    s.scroll_left();
    s.scroll_left();
    assert_eq!(s.offset(), (0, 0));
}

/// Line metrics: line count and the widest line's scrollable width, with
/// carriage returns stripped and no line opened by a trailing line feed.
#[test]
fn line_metrics_counts_and_widths() {
    assert_eq!(line_metrics(&b"".to_vec()), (0, 0));
    assert_eq!(line_metrics(&b"ab\ncdef\n".to_vec()), (2, 3));
    assert_eq!(line_metrics(&b"a\r\nbb".to_vec()), (2, 1));
    assert_eq!(line_metrics(&b"\n".to_vec()), (1, 0));
    assert_eq!(line_metrics(&b"xyz".to_vec()), (1, 2));
    assert_eq!(line_metrics(&b"a\n\nbb\n".to_vec()), (3, 1));
}

/// Each event maps to its action, and only arrow keys move the scroll state.
#[test]
fn dispatch_actions_and_scroll_effects() {
    let mut s = Scroll::new(5, 40);
    assert_eq!(dispatch(&mut s, &Event::Interrupt, 80), Action::Quit);
    assert_eq!(dispatch(&mut s, &Event::FileUpdate, 80), Action::Reload);
    assert_eq!(dispatch(&mut s, &Event::Resize, 80), Action::Redraw);
    assert_eq!(s.offset(), (0, 0));
    assert_eq!(dispatch(&mut s, &Event::KeyArrowUp, 80), Action::ScrollRedraw);
    assert_eq!(s.offset(), (1, 0));
    assert_eq!(
        dispatch(&mut s, &Event::KeyArrowRight, 20),
        Action::ScrollRedraw
    );
    assert_eq!(s.offset(), (1, 1));
    assert_eq!(
        dispatch(&mut s, &Event::KeyArrowDown, 80),
        Action::ScrollRedraw
    );
    assert_eq!(
        dispatch(&mut s, &Event::KeyArrowLeft, 80),
        Action::ScrollRedraw
    );
    assert_eq!(s.offset(), (0, 0));
}

/// Terminal inputs map to watch-loop events: `q` quits, `r` reloads, plain
/// arrows scroll, resizes redraw, and modified or unknown keys are ignored.
#[test]
fn terminal_inputs_map_to_events() {
    assert_eq!(
        event_for_input(&TermInput::Key(KeyPress::Char('q'), true)),
        Some(Event::Interrupt)
    );
    assert_eq!(
        event_for_input(&TermInput::Key(KeyPress::Char('r'), true)),
        Some(Event::FileUpdate)
    );
    assert_eq!(
        event_for_input(&TermInput::Key(KeyPress::Up, true)),
        Some(Event::KeyArrowUp)
    );
    assert_eq!(
        event_for_input(&TermInput::Key(KeyPress::Down, true)),
        Some(Event::KeyArrowDown)
    );
    assert_eq!(
        event_for_input(&TermInput::Key(KeyPress::Left, true)),
        Some(Event::KeyArrowLeft)
    );
    assert_eq!(
        event_for_input(&TermInput::Key(KeyPress::Right, true)),
        Some(Event::KeyArrowRight)
    );
    assert_eq!(event_for_input(&TermInput::Key(KeyPress::Char('q'), false)), None);
    assert_eq!(event_for_input(&TermInput::Key(KeyPress::Char('x'), true)), None);
    assert_eq!(event_for_input(&TermInput::Key(KeyPress::OtherKey, true)), None);
    assert_eq!(event_for_input(&TermInput::Resize), Some(Event::Resize));
    assert_eq!(event_for_input(&TermInput::Other), None);
}

/// Vertical scrolling stops at the offset type's range even for huge content.
#[test]
fn scroll_up_stops_at_offset_range() {
    let mut s = Scroll::new(100_000, 0);
    let mut i = 0;
    while i < 70_000 {
        s.scroll_up();
        i += 1;
    }
    assert_eq!(s.offset(), (u16::MAX, 0));
    s.scroll_up();
    assert_eq!(s.offset(), (u16::MAX, 0));
}

/// The watch loop's failure policy: only a broken event channel forces
/// teardown; a miss, a failed expansion and a failed formatting are shown
/// and the loop keeps listening.
#[test]
fn failure_policy_of_the_watch_loop() {
    assert_eq!(after_failure(&LookError::NotFound), LoopStep::ShowAndContinue);
    assert_eq!(
        after_failure(&LookError::ExpansionFailed {
            stdout: String::new(),
            stderr: "boom".to_string()
        }),
        LoopStep::ShowAndContinue
    );
    assert_eq!(
        after_failure(&LookError::FormattingFailed {
            stdout: String::new(),
            stderr: "boom".to_string()
        }),
        LoopStep::ShowAndContinue
    );
    assert_eq!(after_failure(&LookError::DispatchFailed), LoopStep::Teardown);
}
