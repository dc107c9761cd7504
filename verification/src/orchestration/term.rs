//! Printing a line in a terminal whose upper part stays where it is.

use crate::text;
use crate::text::decimal;
use vstd::prelude::*;

verus! {

/// The row of the line in which the user types.
pub const INPUT_LINE: u16 = 5;

/// How much of that line the prompt takes.
pub const PROMPT_WIDTH: u16 = 2;

/// Who prints the lines, once somebody has taken that over.
pub struct HookSlot<F> {
    pub hook: Option<F>,
}

impl<F> HookSlot<F> {
    /// Nobody has taken over yet.
    pub fn new() -> (r: Self)
        ensures
            r.hook is None,
    {
        HookSlot { hook: None }
    }
}

/// Who prints the lines after somebody has asked for it: only the first who
/// asks gets it.
pub open spec fn installed<F>(hook: Option<F>, f: F) -> Option<F> {
    match hook {
        Some(h) => Some(h),
        None => Some(f),
    }
}

/// Who prints the lines after several have asked for it, one after the other.
pub open spec fn installed_all<F>(hook: Option<F>, fs: Seq<F>) -> Option<F>
    decreases fs.len(),
{
    if fs.len() == 0 {
        hook
    } else {
        installed(installed_all(hook, fs.drop_last()), fs.last())
    }
}

/// Hands the printing over. Only the first who asks gets it.
pub fn install_hook<F>(slot: &mut HookSlot<F>, f: F)
    ensures
        final(slot).hook == installed(old(slot).hook, f),
{
    let free = match &slot.hook {
        Some(_) => false,
        None => true,
    };
    if free {
        slot.hook = Some(f);
    }
}

/// What is sent to a terminal of that height to print a line: go to the
/// bottom, print, go back to where the user types.
pub open spec fn printed(msg: Seq<char>, height: nat) -> Seq<char> {
    "\x1b["@ + text::dec(height) + ";1H"@ + msg + "\n\x1b[5;3H"@
}

/// What is sent to a terminal of that height to print a line.
fn terminal_text(msg: &str, height: u16) -> (r: String)
    ensures
        r@ == printed(msg@, height as nat),
{
    let mut r = "\x1b[".to_owned();
    r.push_str(decimal(height as u128).as_str());
    r.push_str(";1H");
    r.push_str(msg);
    r.push_str("\n\x1b[5;3H");
    r
}

/// Where a line goes.
pub enum Printing<'a, F> {
    /// Whoever prints the lines gets it; nothing is written.
    Hook(&'a F, String),
    /// This is written to the terminal.
    Terminal(String),
}

/// The model of where a line goes.
pub enum PrintingView<F> {
    Hook(F, Seq<char>),
    Terminal(Seq<char>),
}

impl<'a, F> View for Printing<'a, F> {
    type V = PrintingView<F>;

    open spec fn view(&self) -> PrintingView<F> {
        match *self {
            Printing::Hook(f, msg) => PrintingView::Hook(*f, msg@),
            Printing::Terminal(t) => PrintingView::Terminal(t@),
        }
    }
}

/// Where a line goes: to whoever prints the lines, else to a terminal of that
/// height.
pub open spec fn printing<F>(hook: Option<F>, msg: Seq<char>, height: nat) -> PrintingView<F> {
    match hook {
        Some(f) => PrintingView::Hook(f, msg),
        None => PrintingView::Terminal(printed(msg, height)),
    }
}

/// Prints a line: hands it to whoever prints the lines, else says what is
/// written to a terminal of that height.
pub fn scroll_print<'a, F>(slot: &'a HookSlot<F>, msg: &str, height: u16) -> (r: Printing<'a, F>)
    ensures
        r@ == printing(slot.hook, msg@, height as nat),
{
    match &slot.hook {
        Some(f) => Printing::Hook(f, msg.to_owned()),
        None => Printing::Terminal(terminal_text(msg, height)),
    }
}

/// The first who took the printing over gets every line, whoever asks later,
/// and nothing is written to the terminal.
pub proof fn law_first_hook_gets_every_line<F>(f: F, later: Seq<F>, msg: Seq<char>, height: nat)
    ensures
        printing(installed_all(installed(None, f), later), msg, height) == PrintingView::Hook(
            f,
            msg,
        ),
    decreases later.len(),
{
    if later.len() > 0 {
        law_first_hook_gets_every_line(f, later.drop_last(), msg, height);
    }
}

/// The height of a terminal: what it says, else what the environment says,
/// else twenty-four rows.
pub fn terminal_height(reported: Option<u16>, lines: Option<u16>) -> (r: u16)
    ensures
        r == (match reported {
            Some(h) if h > 0 => h,
            _ => match lines {
                Some(l) => l,
                None => 24,
            },
        }),
{
    match reported {
        Some(h) if h > 0 => h,
        _ => match lines {
            Some(l) => l,
            None => 24,
        },
    }
}

/// While nobody has taken the printing over, a line is written as it is, in
/// the last row of the terminal.
pub proof fn law_line_is_printed(msg: Seq<char>, height: nat)
    ensures
        text::contains(printed(msg, height), msg),
        text::contains(printed(msg, height), text::dec(height)),
        printing(None::<u8>, msg, height) == PrintingView::<u8>::Terminal(printed(msg, height)),
{
    let t = printed(msg, height);
    let d = text::dec(height);
    let b = ";1H"@ + msg + "\n\x1b[5;3H"@;
    assert(text::contains(t, d)) by {
        assert(t =~= "\x1b["@ + d + b);
        text::lemma_contains_part("\x1b["@, d, b);
    }
    text::lemma_contains_part("\x1b["@ + d + ";1H"@, msg, "\n\x1b[5;3H"@);
}

} // verus!
