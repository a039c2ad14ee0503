//! The decisions of the orchestration layer, separated from its effects:
//! which locator a request selects, the command line the expansion step
//! runs, how subprocess outcomes map to typed errors, and how terminal
//! events drive the watch loop. The surrounding process and terminal work
//! lives outside this library and hands plain values in and out.

use vstd::prelude::*;
use vstd::string::StringExecFns;

use crate::locate::{
    filter_view, fn_search, impl_search, loc_function, loc_struct, loc_trait_impl, struct_search,
};
use crate::scroll::Scroll;
use crate::ser::{str_views, text_of};
use crate::token::{views_of, Token};

verus! {

broadcast use vstd::seq::group_seq_axioms, vstd::std_specs::vec::group_vec_axioms;

/// An event of the watch loop.
#[derive(Clone, Copy, PartialEq, Eq, Structural, Debug)]
pub enum Event {
    Interrupt,
    FileUpdate,
    Resize,
    KeyArrowUp,
    KeyArrowDown,
    KeyArrowRight,
    KeyArrowLeft,
}

/// The caller-supplied selection: which declaration to look for, what to
/// expand, and what to watch.
#[derive(Debug, Clone)]
pub struct Args {
    /// The interface whose implementation block is wanted.
    pub trait_impl: Option<String>,
    /// Expand this binary target; the library target when absent.
    pub binary: Option<String>,
    /// Expand through the dedicated expansion tool at this path instead.
    pub path: Option<String>,
    /// An integration-test target, accepted and currently not acted on.
    pub integration_test: Option<String>,
    /// The type definition to look for; beside `trait_impl` it narrows the
    /// implementation search to this implementing type.
    pub structure: Option<String>,
    /// The function definition to look for.
    pub function: Option<String>,
    /// The file or directory to watch for changes.
    pub watch: Option<String>,
}

/// One declaration request: exactly one of the three selectors.
#[derive(Debug, PartialEq, Eq)]
pub enum SearchRequest {
    TypeDefinition(String),
    Function(String),
    InterfaceImpl(String, Option<String>),
}

/// The view of an optional owned name.
pub open spec fn opt_view(o: Option<String>) -> Option<Seq<char>> {
    match o {
        Some(s) => Some(s@),
        None => None,
    }
}

/// The request an argument set selects: the interface selector wins, then
/// the type-definition selector, then the function selector; none given is
/// an input error reported as no request.
pub open spec fn selected_request(args: Args) -> Option<SearchRequest> {
    if args.trait_impl is Some {
        Some(SearchRequest::InterfaceImpl(args.trait_impl.unwrap(), args.structure))
    } else if args.structure is Some {
        Some(SearchRequest::TypeDefinition(args.structure.unwrap()))
    } else if args.function is Some {
        Some(SearchRequest::Function(args.function.unwrap()))
    } else {
        None
    }
}

/// The view of a request: its kind, its name, and its optional filter.
pub open spec fn request_views(r: SearchRequest) -> (Seq<char>, Option<Seq<char>>) {
    match r {
        SearchRequest::TypeDefinition(n) => (n@, None),
        SearchRequest::Function(n) => (n@, None),
        SearchRequest::InterfaceImpl(n, f) => (n@, opt_view(f)),
    }
}

/// Selects the locator request the arguments ask for.
pub fn select_request(args: &Args) -> (r: Option<SearchRequest>)
    ensures
        r is Some <==> selected_request(*args) is Some,
        r matches Some(q) ==> request_views(q) == request_views(selected_request(*args).unwrap()),
        r matches Some(q) ==> (q is TypeDefinition <==> selected_request(*args).unwrap()
            is TypeDefinition),
        r matches Some(q) ==> (q is Function <==> selected_request(*args).unwrap() is Function),
        r matches Some(q) ==> (q is InterfaceImpl <==> selected_request(*args).unwrap()
            is InterfaceImpl),
{
    match &args.trait_impl {
        Some(t) => {
            let f = match &args.structure {
                Some(s) => Some(s.clone()),
                None => None,
            };
            Some(SearchRequest::InterfaceImpl(t.clone(), f))
        },
        None => match &args.structure {
            Some(s) => Some(SearchRequest::TypeDefinition(s.clone())),
            None => match &args.function {
                Some(fname) => Some(SearchRequest::Function(fname.clone())),
                None => None,
            },
        },
    }
}

/// The message shown while a request is being expanded.
pub open spec fn message_for(r: SearchRequest) -> Seq<char> {
    match r {
        SearchRequest::TypeDefinition(n) => "Expanding struct: "@ + n@,
        SearchRequest::Function(n) => "Expanding function: "@ + n@,
        SearchRequest::InterfaceImpl(n, f) => match f {
            Some(s) => "Expanding trait: "@ + n@ + " for "@ + s@,
            None => "Expanding trait: "@ + n@,
        },
    }
}

/// Renders the message shown while a request is being expanded.
pub fn request_message(r: &SearchRequest) -> (msg: String)
    ensures
        msg@ == message_for(*r),
{
    match r {
        SearchRequest::TypeDefinition(n) => {
            let mut m = "Expanding struct: ".to_owned();
            m.append(n.as_str());
            m
        },
        SearchRequest::Function(n) => {
            let mut m = "Expanding function: ".to_owned();
            m.append(n.as_str());
            m
        },
        SearchRequest::InterfaceImpl(n, f) => {
            let mut m = "Expanding trait: ".to_owned();
            m.append(n.as_str());
            match f {
                Some(s) => {
                    m.append(" for ");
                    m.append(s.as_str());
                },
                None => (),
            }
            m
        },
    }
}

/// Runs the locator a request selects over a token tree and returns the
/// match as canonical text.
pub fn locate(req: &SearchRequest, code: &Vec<Token>) -> (r: Option<String>)
    ensures
        req matches SearchRequest::TypeDefinition(n) ==> {
            &&& (r is Some <==> struct_search(n@, views_of(code@), 0) is Some)
            &&& (r matches Some(text) ==> text@ == text_of(
                struct_search(n@, views_of(code@), 0).unwrap(),
            ))
        },
        req matches SearchRequest::Function(n) ==> {
            &&& (r is Some <==> fn_search(n@, views_of(code@), 0) is Some)
            &&& (r matches Some(text) ==> text@ == text_of(
                fn_search(n@, views_of(code@), 0).unwrap(),
            ))
        },
        req matches SearchRequest::InterfaceImpl(n, f) ==> {
            &&& (r is Some <==> impl_search(n@, opt_view(*f), views_of(code@)) is Some)
            &&& (r matches Some(text) ==> text@ == text_of(
                impl_search(n@, opt_view(*f), views_of(code@)).unwrap(),
            ))
        },
{
    match req {
        SearchRequest::TypeDefinition(n) => loc_struct(n.as_str(), code),
        SearchRequest::Function(n) => loc_function(n.as_str(), code),
        SearchRequest::InterfaceImpl(n, f) => {
            let filter = match f {
                Some(s) => Some(s.as_str()),
                None => None,
            };
            proof {
                assert(filter_view(filter) == opt_view(*f));
            }
            loc_trait_impl(n.as_str(), code, filter)
        },
    }
}

/// The command line the expansion step runs: the dedicated expansion tool
/// when a path is given; otherwise the build tool on a named binary target,
/// or on the library target.
pub open spec fn expand_command_spec(args: Args) -> Seq<Seq<char>> {
    if args.path is Some {
        seq!["cargo"@, "expand"@, args.path.unwrap()@]
    } else if args.binary is Some {
        seq![
            "rustup"@,
            "run"@,
            "nightly"@,
            "cargo"@,
            "rustc"@,
            "--bin"@,
            args.binary.unwrap()@,
            "--profile=check"@,
            "--"@,
            "-Zunpretty=expanded"@,
        ]
    } else {
        seq![
            "rustup"@,
            "run"@,
            "nightly"@,
            "cargo"@,
            "rustc"@,
            "--lib"@,
            "--profile=check"@,
            "--"@,
            "-Zunpretty=expanded"@,
        ]
    }
}

/// Builds the expansion command line, program first.
pub fn expand_command(args: &Args) -> (r: Vec<String>)
    ensures
        str_views(r@) == expand_command_spec(*args),
{
    broadcast use crate::ser::group_str_views;

    let mut r: Vec<String> = Vec::new();
    match &args.path {
        Some(p) => {
            r.push("cargo".to_owned());
            r.push("expand".to_owned());
            r.push(p.clone());
        },
        None => {
            r.push("rustup".to_owned());
            r.push("run".to_owned());
            r.push("nightly".to_owned());
            r.push("cargo".to_owned());
            r.push("rustc".to_owned());
            match &args.binary {
                Some(b) => {
                    r.push("--bin".to_owned());
                    r.push(b.clone());
                },
                None => {
                    r.push("--lib".to_owned());
                },
            }
            r.push("--profile=check".to_owned());
            r.push("--".to_owned());
            r.push("-Zunpretty=expanded".to_owned());
        },
    }
    proof {
        assert(str_views(r@) =~= expand_command_spec(*args));
    }
    r
}

/// The failure classes of a run, all raised by collaborators: the locator
/// itself is total and reports a miss as a plain result, surfaced here as
/// `NotFound`.
#[derive(Debug, PartialEq, Eq)]
pub enum LookError {
    /// The expansion subprocess exited nonzero; both output streams are kept
    /// for the report.
    ExpansionFailed { stdout: String, stderr: String },
    /// The locator completed without a match.
    NotFound,
    /// The formatting subprocess failed; non-fatal in watch mode.
    FormattingFailed { stdout: String, stderr: String },
    /// The event channel broke; fatal, forces teardown.
    DispatchFailed,
}

/// Classifies what the expansion subprocess returned: its standard output on
/// success, and both captured streams as the failure report otherwise.
pub fn expand_outcome(success: bool, stdout: String, stderr: String) -> (r: Result<
    String,
    LookError,
>)
    ensures
        success ==> r == Ok::<String, LookError>(stdout),
        !success ==> r == Err::<String, LookError>(
            LookError::ExpansionFailed { stdout, stderr },
        ),
{
    if success {
        Ok(stdout)
    } else {
        Err(LookError::ExpansionFailed { stdout, stderr })
    }
}

/// Reports a finished search: the located text, or the miss as the typed
/// `NotFound` outcome.
pub fn look_outcome(located: Option<String>) -> (r: Result<String, LookError>)
    ensures
        located matches Some(text) ==> r == Ok::<String, LookError>(text),
        located is None ==> r == Err::<String, LookError>(LookError::NotFound),
{
    match located {
        Some(text) => Ok(text),
        None => Err(LookError::NotFound),
    }
}

/// Classifies what the formatting subprocess returned, in the same way.
pub fn format_outcome(success: bool, stdout: String, stderr: String) -> (r: Result<
    String,
    LookError,
>)
    ensures
        success ==> r == Ok::<String, LookError>(stdout),
        !success ==> r == Err::<String, LookError>(
            LookError::FormattingFailed { stdout, stderr },
        ),
{
    if success {
        Ok(stdout)
    } else {
        Err(LookError::FormattingFailed { stdout, stderr })
    }
}

/// What the watch loop must do after an event is applied.
#[derive(Clone, Copy, PartialEq, Eq, Structural, Debug)]
pub enum Action {
    /// Stop watching, restore the terminal, and leave the loop.
    Quit,
    /// Re-run the whole pipeline and re-render with the new match.
    Reload,
    /// Re-render as it stands.
    Redraw,
    /// Re-render the code view at the new scroll offset.
    ScrollRedraw,
}

/// The action an event maps to.
pub open spec fn action_for(e: Event) -> Action {
    match e {
        Event::Interrupt => Action::Quit,
        Event::FileUpdate => Action::Reload,
        Event::Resize => Action::Redraw,
        Event::KeyArrowUp => Action::ScrollRedraw,
        Event::KeyArrowDown => Action::ScrollRedraw,
        Event::KeyArrowRight => Action::ScrollRedraw,
        Event::KeyArrowLeft => Action::ScrollRedraw,
    }
}

/// Applies one event of the watch loop to the scroll state and says what
/// the loop must do next. Arrow keys move the scroll state; everything else
/// leaves it alone.
pub fn dispatch(scroll: &mut Scroll, event: &Event, screen_width: u16) -> (r: Action)
    ensures
        r == action_for(*event),
        final(scroll).v_limit() == old(scroll).v_limit(),
        final(scroll).h_limit() == old(scroll).h_limit(),
        final(scroll).v_pos() == match event {
            Event::KeyArrowUp => if old(scroll).can_scroll_up() {
                old(scroll).v_pos() + 1
            } else {
                old(scroll).v_pos()
            },
            Event::KeyArrowDown => if old(scroll).v_pos() > 0 {
                (old(scroll).v_pos() - 1) as nat
            } else {
                0nat
            },
            _ => old(scroll).v_pos(),
        },
        final(scroll).h_pos() == match event {
            Event::KeyArrowRight => if old(scroll).can_scroll_right(screen_width) {
                old(scroll).h_pos() + 1
            } else {
                old(scroll).h_pos()
            },
            Event::KeyArrowLeft => if old(scroll).h_pos() > 0 {
                (old(scroll).h_pos() - 1) as nat
            } else {
                0nat
            },
            _ => old(scroll).h_pos(),
        },
{
    match event {
        Event::Interrupt => Action::Quit,
        Event::FileUpdate => Action::Reload,
        Event::Resize => Action::Redraw,
        Event::KeyArrowUp => {
            scroll.scroll_up();
            Action::ScrollRedraw
        },
        Event::KeyArrowDown => {
            scroll.scroll_down();
            Action::ScrollRedraw
        },
        Event::KeyArrowRight => {
            scroll.scroll_right(screen_width);
            Action::ScrollRedraw
        },
        Event::KeyArrowLeft => {
            scroll.scroll_left();
            Action::ScrollRedraw
        },
    }
}

/// What the watch loop does after a pipeline step failed.
#[derive(Clone, Copy, PartialEq, Eq, Structural, Debug)]
pub enum LoopStep {
    /// Show the failure as a transient message and keep listening.
    ShowAndContinue,
    /// Restore the terminal first, then let the failure propagate.
    Teardown,
}

/// The watch loop's failure policy: a broken event channel is fatal and
/// forces graceful teardown; a failed expansion, a miss, and a failed
/// formatting are shown as transient messages while the loop keeps
/// listening for the next event.
pub fn after_failure(e: &LookError) -> (r: LoopStep)
    ensures
        r == LoopStep::Teardown <==> e is DispatchFailed,
{
    match e {
        LookError::DispatchFailed => LoopStep::Teardown,
        _ => LoopStep::ShowAndContinue,
    }
}

/// A key the terminal reported.
#[derive(Clone, Copy, PartialEq, Eq, Structural, Debug)]
pub enum KeyPress {
    Char(char),
    Up,
    Down,
    Left,
    Right,
    OtherKey,
}

/// A terminal input, as the listener thread sees it: a key press together
/// with whether it came unmodified, a window resize, or anything else.
#[derive(Clone, Copy, PartialEq, Eq, Structural, Debug)]
pub enum TermInput {
    Key(KeyPress, bool),
    Resize,
    Other,
}

/// The watch-loop event a terminal input maps to: `q` interrupts, `r`
/// reloads, plain arrow keys scroll, a resize redraws; modified keys and
/// everything else are ignored.
pub open spec fn event_for(i: TermInput) -> Option<Event> {
    match i {
        TermInput::Key(k, plain) => if plain {
            match k {
                KeyPress::Char(c) => if c == 'q' {
                    Some(Event::Interrupt)
                } else if c == 'r' {
                    Some(Event::FileUpdate)
                } else {
                    None
                },
                KeyPress::Up => Some(Event::KeyArrowUp),
                KeyPress::Down => Some(Event::KeyArrowDown),
                KeyPress::Left => Some(Event::KeyArrowLeft),
                KeyPress::Right => Some(Event::KeyArrowRight),
                KeyPress::OtherKey => None,
            }
        } else {
            None
        },
        TermInput::Resize => Some(Event::Resize),
        TermInput::Other => None,
    }
}

/// Maps a terminal input to the watch-loop event it stands for.
pub fn event_for_input(input: &TermInput) -> (r: Option<Event>)
    ensures
        r == event_for(*input),
{
    match input {
        TermInput::Key(k, plain) => {
            if !*plain {
                return None;
            }
            match k {
                KeyPress::Char(c) => {
                    if *c == 'q' {
                        Some(Event::Interrupt)
                    } else if *c == 'r' {
                        Some(Event::FileUpdate)
                    } else {
                        None
                    }
                },
                KeyPress::Up => Some(Event::KeyArrowUp),
                KeyPress::Down => Some(Event::KeyArrowDown),
                KeyPress::Left => Some(Event::KeyArrowLeft),
                KeyPress::Right => Some(Event::KeyArrowRight),
                KeyPress::OtherKey => None,
            }
        },
        TermInput::Resize => Some(Event::Resize),
        TermInput::Other => None,
    }
}

} // verus!
