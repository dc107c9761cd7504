//! The terminal: a fixed part at the top in which the user types, and a part
//! below it that scrolls and can be scrolled back.

use crate::message;
use crate::orchestration::bus::InboundMessage;
use crate::orchestration::term::{INPUT_LINE, PROMPT_WIDTH};
use crate::text;
use crate::text::{chars_of, decimal, decimal_usize, eq_but_case, str_eq, str_trim, string_of};
use vstd::prelude::*;

verus! {

/// How many rows the logo takes.
pub const LOGO_LINES: u16 = 3;

/// How many rows at the top stay where they are.
pub const FIXED_TOP_LINES: u16 = 6;

/// How many lines are kept for scrolling back.
pub const HISTORY_CAP: usize = 5000;

// ---------------------------------------------------------------------------
// Lines that can be scrolled back to
// ---------------------------------------------------------------------------

/// The start of a control sequence.
pub open spec fn csi() -> Seq<char> {
    seq!['\x1b', '[']
}

/// Whether a character ends a control sequence.
pub open spec fn is_letter(c: char) -> bool {
    'a' <= c <= 'z' || 'A' <= c <= 'Z'
}

/// How many characters stand before the one that ends a control sequence.
pub open spec fn params_len(s: Seq<char>) -> nat
    decreases s.len(),
{
    if s.len() == 0 || is_letter(s[0]) {
        0
    } else {
        1 + params_len(s.skip(1))
    }
}

pub proof fn lemma_params_len(s: Seq<char>)
    ensures
        params_len(s) <= s.len(),
        params_len(s) < s.len() ==> is_letter(s[params_len(s) as int]),
    decreases s.len(),
{
    if s.len() > 0 && !is_letter(s[0]) {
        lemma_params_len(s.skip(1));
    }
}

/// Whether a control sequence starts the text.
pub open spec fn starts_sequence(s: Seq<char>) -> bool {
    s.len() > 1 && s[0] == '\x1b' && s[1] == '['
}

/// The parameters of the control sequence at the start.
pub open spec fn sequence_params(s: Seq<char>) -> Seq<char> {
    s.skip(2).take(params_len(s.skip(2)) as int)
}

/// The character that ends the control sequence at the start; a null where
/// none does.
pub open spec fn sequence_end(s: Seq<char>) -> char {
    let rest = s.skip(2);
    let k = params_len(rest);
    if k < rest.len() {
        rest[k as int]
    } else {
        '\0'
    }
}

/// What follows the control sequence at the start.
pub open spec fn behind_sequence(s: Seq<char>) -> Seq<char> {
    let rest = s.skip(2);
    let k = params_len(rest);
    if k < rest.len() {
        rest.skip(k as int + 1)
    } else {
        Seq::empty()
    }
}

/// The colours that are in force after a control sequence.
pub open spec fn colours_after(sgr: Seq<char>, params: Seq<char>, end: char) -> Seq<char> {
    if end == 'm' {
        if params.len() == 0 || params == "0"@ {
            Seq::empty()
        } else {
            params
        }
    } else {
        sgr
    }
}

/// The sequence that puts colours in force; none for the usual ones.
pub open spec fn colour_prefix(sgr: Seq<char>) -> Seq<char> {
    if sgr.len() == 0 {
        Seq::empty()
    } else {
        csi() + sgr + seq!['m']
    }
}

/// The lines of a text, where `cur` is the line so far and `sgr` the colours
/// that are in force: each line but the first starts with the colours of the
/// one before it.
pub open spec fn coloured_lines(s: Seq<char>, cur: Seq<char>, sgr: Seq<char>) -> Seq<Seq<char>>
    decreases s.len(),
{
    if s.len() == 0 {
        seq![cur]
    } else if starts_sequence(s) {
        coloured_lines(
            behind_sequence(s),
            cur + csi() + sequence_params(s) + seq![sequence_end(s)],
            colours_after(sgr, sequence_params(s), sequence_end(s)),
        )
    } else if s[0] == '\n' {
        seq![cur] + coloured_lines(s.skip(1), colour_prefix(sgr), sgr)
    } else {
        coloured_lines(s.skip(1), cur.push(s[0]), sgr)
    }
}

/// The lines of a text.
pub open spec fn lines_of(s: Seq<char>) -> Seq<Seq<char>> {
    coloured_lines(s, Seq::empty(), Seq::empty())
}

/// A text without control sequences is cut at its line ends and nothing else
/// happens to it.
pub proof fn law_plain_text_is_only_split(s: Seq<char>, cur: Seq<char>)
    requires
        forall|i: int| 0 <= i < s.len() ==> #[trigger] s[i] != '\x1b',
        forall|i: int| 0 <= i < cur.len() ==> #[trigger] cur[i] != '\n',
    ensures
        coloured_lines(s, cur, Seq::empty()) == text::split_on(cur + s, '\n'),
    decreases s.len(),
{
    let t = cur + s;
    if s.len() == 0 {
        assert(t =~= cur);
        text::lemma_until(cur, '\n');
        assert(text::until(cur, '\n') == cur.len());
    } else {
        let rest = s.skip(1);
        assert forall|i: int| 0 <= i < rest.len() implies #[trigger] rest[i] != '\x1b' by {
            assert(rest[i] == s[i + 1]);
        }
        if s[0] == '\n' {
            text::lemma_until(t, '\n');
            assert(t[cur.len() as int] == '\n');
            assert forall|i: int| 0 <= i < cur.len() implies #[trigger] t[i] != '\n' by {
                assert(t[i] == cur[i]);
            }
            assert(text::until(t, '\n') == cur.len());
            assert(t.take(cur.len() as int) =~= cur);
            assert(t.skip(cur.len() as int + 1) =~= rest);
            law_plain_text_is_only_split(rest, Seq::empty());
            assert(Seq::<char>::empty() + rest =~= rest);
        } else {
            let next = cur.push(s[0]);
            assert forall|i: int| 0 <= i < next.len() implies #[trigger] next[i] != '\n' by {
                if i < cur.len() {
                    assert(next[i] == cur[i]);
                }
            }
            law_plain_text_is_only_split(rest, next);
            assert(next + rest =~= t);
        }
    }
}

/// Splits a text into lines that each start with the colours in force.
pub fn split_coloured(msg: &str) -> (r: Vec<String>)
    ensures
        text::texts(r@) == lines_of(msg@),
{
    let cs = chars_of(msg);
    let n: usize = cs.len();
    let mut done: Vec<String> = Vec::new();
    let mut cur = String::new();
    let mut sgr = String::new();
    let mut i: usize = 0;
    let ghost s = msg@;
    proof {
        text::lemma_empty_literal();
        assert(s.skip(0) =~= s);
        assert(text::texts(done@) + coloured_lines(s, cur@, sgr@) =~= lines_of(s));
    }
    while i < n
        invariant
            0 <= i <= n,
            n == cs@.len(),
            cs@ == s,
            s == msg@,
            text::texts(done@) + coloured_lines(s.skip(i as int), cur@, sgr@) == lines_of(s),
        decreases n - i,
    {
        let c = cs[i];
        let ghost rest = s.skip(i as int);
        proof {
            assert(rest[0] == s[i as int]);
        }
        if c == '\x1b' && i < n - 1 && cs[i + 1] == '[' {
            proof {
                assert(rest[1] == s[i + 1]);
                assert(starts_sequence(rest));
                assert(rest.skip(2) =~= s.skip(i + 2));
                lemma_params_len(rest.skip(2));
                assert(s.skip(i + 2).skip(0) =~= s.skip(i + 2));
            }
            let start: usize = i + 2;
            let mut j: usize = start;
            while j < n && !((cs[j] >= 'a' && cs[j] <= 'z') || (cs[j] >= 'A' && cs[j] <= 'Z'))
                invariant
                    start <= j <= n,
                    n == cs@.len(),
                    cs@ == s,
                    start == i + 2,
                    params_len(s.skip(start as int)) == j - start + params_len(
                        s.skip(j as int),
                    ),
                decreases n - j,
            {
                proof {
                    assert(s.skip(j as int)[0] == s[j as int]);
                    assert(s.skip(j as int).skip(1) =~= s.skip(j + 1));
                }
                j += 1;
            }
            proof {
                if j < n {
                    assert(s.skip(j as int)[0] == s[j as int]);
                }
                assert(params_len(s.skip(start as int)) == j - start);
            }
            let params = string_of(cs.as_slice(), start, j);
            proof {
                assert(params@ =~= sequence_params(rest));
            }
            let end: char = if j < n {
                cs[j]
            } else {
                '\0'
            };
            proof {
                assert(end == sequence_end(rest)) by {
                    if j < n {
                        assert(rest.skip(2)[j - start] == s[j as int]);
                    }
                }
            }
            let ghost cur0 = cur@;
            cur.push('\x1b');
            cur.push('[');
            cur.push_str(params.as_str());
            cur.push(end);
            proof {
                assert(cur@ =~= cur0 + csi() + sequence_params(rest) + seq![sequence_end(rest)]);
            }
            let ghost sgr0 = sgr@;
            if end == 'm' {
                proof {
                    text::lemma_empty_literal();
                }
                if params.as_str().is_empty() || str_eq(params.as_str(), "0") {
                    sgr = String::new();
                } else {
                    sgr = params;
                }
            }
            proof {
                assert(sgr@ == colours_after(sgr0, sequence_params(rest), sequence_end(rest)));
            }
            let next: usize = if j < n {
                j + 1
            } else {
                n
            };
            proof {
                assert(s.skip(next as int) =~= behind_sequence(rest)) by {
                    if j < n {
                        assert(rest.skip(2).skip(j - start + 1) =~= s.skip(j + 1));
                    }
                }
            }
            i = next;
        } else if c == '\n' {
            proof {
                assert(!starts_sequence(rest));
                assert(rest.skip(1) =~= s.skip(i + 1));
            }
            let ghost d0 = done@;
            let ghost cur0 = cur@;
            let mut fresh = String::new();
            proof {
                text::lemma_empty_literal();
            }
            if !sgr.as_str().is_empty() {
                fresh.push('\x1b');
                fresh.push('[');
                fresh.push_str(sgr.as_str());
                fresh.push('m');
            }
            proof {
                assert(fresh@ =~= colour_prefix(sgr@));
            }
            done.push(cur);
            proof {
                assert(text::texts(done@) =~= text::texts(d0).push(cur0));
                assert(text::texts(d0) + (seq![cur0] + coloured_lines(
                    s.skip(i + 1),
                    fresh@,
                    sgr@,
                )) =~= text::texts(done@) + coloured_lines(s.skip(i + 1), fresh@, sgr@));
            }
            cur = fresh;
            i += 1;
        } else {
            proof {
                assert(rest.skip(1) =~= s.skip(i + 1));
                assert(!starts_sequence(rest)) by {
                    if starts_sequence(rest) {
                        assert(rest[1] == s[i + 1]);
                    }
                }
            }
            cur.push(c);
            i += 1;
        }
    }
    let ghost d0 = done@;
    let ghost cur0 = cur@;
    proof {
        assert(s.skip(i as int).len() == 0);
        assert(coloured_lines(s.skip(i as int), cur@, sgr@) == seq![cur@]);
    }
    done.push(cur);
    proof {
        assert(text::texts(done@) =~= text::texts(d0) + seq![cur0]);
    }
    done
}

/// The lines that can be scrolled back to, and how far back the user is.
#[derive(Debug)]
pub struct ScrollState {
    pub buffer: Vec<String>,
    /// How many lines up from the newest; 0 while new lines are followed.
    pub view_offset: usize,
}

/// The last lines, as many as are kept.
pub open spec fn kept_lines(lines: Seq<Seq<char>>) -> Seq<Seq<char>> {
    if lines.len() <= HISTORY_CAP {
        lines
    } else {
        lines.skip(lines.len() - HISTORY_CAP)
    }
}

impl ScrollState {
    /// The lines.
    pub open spec fn lines(self) -> Seq<Seq<char>> {
        text::texts(self.buffer@)
    }

    /// Whether no more lines are there than are kept, and the user is no
    /// further back than that.
    pub open spec fn is_sound(self) -> bool {
        self.buffer@.len() <= HISTORY_CAP && self.view_offset <= HISTORY_CAP
    }

    /// No lines.
    pub fn new() -> (r: Self)
        ensures
            r.is_sound(),
            r.lines() == Seq::<Seq<char>>::empty(),
            r.view_offset == 0,
    {
        let r = ScrollState { buffer: Vec::new(), view_offset: 0 };
        proof {
            assert(r.lines() =~= Seq::<Seq<char>>::empty());
        }
        r
    }

    /// Adds the lines of a text; the oldest lines go where there are too many.
    pub fn push(&mut self, msg: &str)
        requires
            old(self).is_sound(),
        ensures
            final(self).is_sound(),
            final(self).lines() == kept_lines(old(self).lines() + lines_of(msg@)),
            final(self).view_offset == old(self).view_offset,
    {
        let added = split_coloured(msg);
        let ghost all = self.lines();
        let ghost new = text::texts(added@);
        let mut i: usize = 0;
        proof {
            assert(all + new.take(0) =~= all);
        }
        while i < added.len()
            invariant
                0 <= i <= added@.len(),
                new == text::texts(added@),
                self.is_sound(),
                self.lines() == kept_lines(all + new.take(i as int)),
                self.view_offset == old(self).view_offset,
            decreases added@.len() - i,
        {
            let ghost b0 = self.lines();
            let ghost full = self.buffer@.len() >= HISTORY_CAP;
            if self.buffer.len() >= HISTORY_CAP {
                let _gone = self.buffer.remove(0);
                proof {
                    assert(self.lines() =~= b0.skip(1));
                }
            }
            let ghost b1 = self.lines();
            self.buffer.push(added[i].clone());
            proof {
                assert(self.lines() =~= b1.push(new[i as int]));
                let before = all + new.take(i as int);
                let after = all + new.take(i + 1);
                assert(after =~= before.push(new[i as int]));
                assert(self.lines() =~= kept_lines(after));
            }
            i += 1;
        }
        proof {
            assert(new.take(i as int) =~= new);
        }
    }
}

// ---------------------------------------------------------------------------
// Scrolling
// ---------------------------------------------------------------------------

/// A key that scrolls.
#[derive(Debug, Clone, Copy, PartialEq, Eq, Structural)]
pub enum ScrollCmd {
    PageUp,
    PageDown,
    LineUp,
    LineDown,
    /// To the oldest line.
    Top,
    /// To the newest line.
    Bottom,
}

/// The first row of the part that scrolls.
pub fn output_start_row() -> (r: u16)
    ensures
        r == FIXED_TOP_LINES + 1,
{
    FIXED_TOP_LINES + 1
}

/// How many rows scroll in a terminal of that height.
pub open spec fn scroll_rows(height: int) -> int {
    if height < FIXED_TOP_LINES + 1 {
        0
    } else {
        height - FIXED_TOP_LINES
    }
}

/// How many rows scroll in a terminal of that height.
pub fn visible_rows(height: u16) -> (r: usize)
    ensures
        r == scroll_rows(height as int),
{
    if height < output_start_row() {
        0
    } else {
        (height - FIXED_TOP_LINES) as usize
    }
}

/// How many lines are shown at once: the lowest row stays empty.
pub open spec fn usable(rows: int) -> int {
    if rows > 0 {
        rows - 1
    } else {
        0
    }
}

/// How far back one can scroll.
pub open spec fn max_offset(len: int, rows: int) -> int {
    if len > usable(rows) {
        len - usable(rows)
    } else {
        0
    }
}

/// How far back the user is after a key.
pub open spec fn offset_after(offset: int, len: int, rows: int, cmd: ScrollCmd) -> int {
    let page = if usable(rows) > 1 {
        usable(rows)
    } else {
        1
    };
    let top = max_offset(len, rows);
    match cmd {
        ScrollCmd::PageUp => if offset + page < top {
            offset + page
        } else {
            top
        },
        ScrollCmd::LineUp => if offset + 1 < top {
            offset + 1
        } else {
            top
        },
        ScrollCmd::PageDown => if offset > page {
            offset - page
        } else {
            0
        },
        ScrollCmd::LineDown => if offset > 1 {
            offset - 1
        } else {
            0
        },
        ScrollCmd::Top => top,
        ScrollCmd::Bottom => 0,
    }
}

/// Scrolls. Says whether what is shown has changed.
pub fn apply_scroll(s: &mut ScrollState, cmd: ScrollCmd, rows: usize) -> (r: bool)
    requires
        old(s).is_sound(),
        rows <= u16::MAX,
    ensures
        r == (rows > 0 && offset_after(
            old(s).view_offset as int,
            old(s).buffer@.len() as int,
            rows as int,
            cmd,
        ) != old(s).view_offset),
        final(s).buffer@ == old(s).buffer@,
        final(s).view_offset == (if r {
            offset_after(
                old(s).view_offset as int,
                old(s).buffer@.len() as int,
                rows as int,
                cmd,
            )
        } else {
            old(s).view_offset as int
        }),
        final(s).is_sound(),
{
    let usable_rows: usize = if rows > 0 {
        rows - 1
    } else {
        0
    };
    let len: usize = s.buffer.len();
    let top: usize = if len > usable_rows {
        len - usable_rows
    } else {
        0
    };
    let page: usize = if usable_rows > 1 {
        usable_rows
    } else {
        1
    };
    let offset: usize = s.view_offset;
    let new: usize = match cmd {
        ScrollCmd::PageUp => if offset + page < top {
            offset + page
        } else {
            top
        },
        ScrollCmd::LineUp => if offset + 1 < top {
            offset + 1
        } else {
            top
        },
        ScrollCmd::PageDown => if offset > page {
            offset - page
        } else {
            0
        },
        ScrollCmd::LineDown => if offset > 1 {
            offset - 1
        } else {
            0
        },
        ScrollCmd::Top => top,
        ScrollCmd::Bottom => 0,
    };
    if rows == 0 || new == offset {
        return false;
    }
    s.view_offset = new;
    true
}

/// Follows new lines again. Says whether what is shown has changed.
pub fn snap_to_bottom(s: &mut ScrollState) -> (r: bool)
    ensures
        r == (old(s).view_offset != 0),
        final(s).view_offset == 0,
        final(s).buffer@ == old(s).buffer@,
{
    let changed = s.view_offset != 0;
    s.view_offset = 0;
    changed
}

/// Scrolling never goes beyond the oldest line, and as many pages down as up
/// lead back to the newest.
pub proof fn law_scrolling_stays_in_the_buffer(offset: int, len: int, rows: int, cmd: ScrollCmd)
    requires
        0 <= offset <= max_offset(len, rows),
        0 <= len,
        0 < rows,
    ensures
        0 <= offset_after(offset, len, rows, cmd) <= max_offset(len, rows),
        offset_after(offset, len, rows, ScrollCmd::PageDown) <= offset,
        offset_after(offset, len, rows, ScrollCmd::PageUp) >= offset,
        offset_after(offset_after(0, len, rows, ScrollCmd::PageUp), len, rows, ScrollCmd::PageDown)
            == 0,
{
}

// ---------------------------------------------------------------------------
// What is sent to the terminal
// ---------------------------------------------------------------------------

/// Where the cursor goes: to the row and column.
pub open spec fn goto(row: nat, col: nat) -> Seq<char> {
    "\x1b["@ + text::dec(row) + ";"@ + text::dec(col) + "H"@
}

/// Which rows scroll.
pub open spec fn region(height: nat) -> Seq<char> {
    "\x1b["@ + text::dec((FIXED_TOP_LINES + 1) as nat) + ";"@ + text::dec(height) + "r"@
}

/// The cursor back to where the user types.
pub open spec fn to_input() -> Seq<char> {
    goto(INPUT_LINE as nat, (PROMPT_WIDTH + 1) as nat)
}

fn push_goto(out: &mut String, row: u16, col: u16)
    ensures
        final(out)@ == old(out)@ + goto(row as nat, col as nat),
{
    let ghost before = out@;
    out.push_str("\x1b[");
    out.push_str(decimal(row as u128).as_str());
    out.push_str(";");
    out.push_str(decimal(col as u128).as_str());
    out.push_str("H");
    proof {
        assert(out@ =~= before + goto(row as nat, col as nat));
    }
}

fn push_region(out: &mut String, height: u16)
    ensures
        final(out)@ == old(out)@ + region(height as nat),
{
    let ghost before = out@;
    out.push_str("\x1b[");
    out.push_str(decimal(output_start_row() as u128).as_str());
    out.push_str(";");
    out.push_str(decimal(height as u128).as_str());
    out.push_str("r");
    proof {
        assert(out@ =~= before + region(height as nat));
    }
}

/// A line that is added below the others.
pub open spec fn appended(msg: Seq<char>, height: nat) -> Seq<char> {
    region(height) + goto(height, 1) + "\x1b[0m"@ + msg + "\x1b[0m\n"@ + to_input()
}

/// What is sent to add a line below the others.
pub fn append_to_scroll_region(msg: &str, height: u16) -> (r: String)
    ensures
        r@ == appended(msg@, height as nat),
{
    let mut out = String::new();
    proof {
        text::lemma_empty_literal();
    }
    push_region(&mut out, height);
    push_goto(&mut out, height, 1);
    out.push_str("\x1b[0m");
    out.push_str(msg);
    out.push_str("\x1b[0m\n");
    push_goto(&mut out, INPUT_LINE, PROMPT_WIDTH + 1);
    proof {
        assert(out@ =~= appended(msg@, height as nat));
    }
    out
}

/// What is sent for the row at `i` of those that scroll: the line of the
/// buffer that belongs there, if there is one.
pub open spec fn row_text(s: ScrollState, rows: int, i: int) -> Seq<char> {
    let end = if s.buffer@.len() > s.view_offset {
        s.buffer@.len() - s.view_offset
    } else {
        0
    };
    let start = if end > usable(rows) {
        end - usable(rows)
    } else {
        0
    };
    goto((FIXED_TOP_LINES + 1 + i) as nat, 1) + "\x1b[0m\x1b[K"@ + (if i < usable(rows) && start + i
        < end {
        s.lines()[start + i] + "\x1b[0m"@
    } else {
        Seq::empty()
    })
}

/// What is sent for the first `n` of the rows that scroll.
pub open spec fn rows_text(s: ScrollState, rows: int, n: int) -> Seq<char>
    decreases n,
{
    if n <= 0 {
        Seq::empty()
    } else {
        rows_text(s, rows, n - 1) + row_text(s, rows, n - 1)
    }
}

/// What is sent to draw all that scrolls; nothing where nothing does.
pub open spec fn redrawn(s: ScrollState, height: int) -> Seq<char> {
    let rows = scroll_rows(height);
    if rows == 0 {
        Seq::empty()
    } else {
        region(height as nat) + "\x1b[?7l"@ + rows_text(s, rows, rows) + "\x1b[0m\x1b[?7h"@
            + to_input()
    }
}

/// What is sent to draw all that scrolls.
pub fn redraw_scroll_region(s: &ScrollState, height: u16) -> (r: String)
    ensures
        r@ == redrawn(*s, height as int),
{
    let rows: usize = visible_rows(height);
    let mut out = String::new();
    proof {
        text::lemma_empty_literal();
    }
    if rows == 0 {
        return out;
    }
    let usable_rows: usize = rows - 1;
    let len: usize = s.buffer.len();
    let end: usize = if len > s.view_offset {
        len - s.view_offset
    } else {
        0
    };
    let start: usize = if end > usable_rows {
        end - usable_rows
    } else {
        0
    };
    push_region(&mut out, height);
    out.push_str("\x1b[?7l");
    let ghost head = out@;
    let mut i: usize = 0;
    proof {
        assert(out@ =~= head + rows_text(*s, rows as int, 0));
    }
    while i < rows
        invariant
            0 <= i <= rows,
            rows == scroll_rows(height as int),
            rows > 0,
            usable_rows == rows - 1,
            len == s.buffer@.len(),
            end == (if len > s.view_offset {
                len - s.view_offset
            } else {
                0
            }),
            start == (if end > usable_rows {
                end - usable_rows
            } else {
                0
            }),
            out@ == head + rows_text(*s, rows as int, i as int),
        decreases rows - i,
    {
        let ghost before = out@;
        push_goto(&mut out, output_start_row() + i as u16, 1);
        out.push_str("\x1b[0m\x1b[K");
        if i < usable_rows && i < end - start {
            out.push_str(s.buffer[start + i].as_str());
            out.push_str("\x1b[0m");
        }
        proof {
            assert(out@ =~= before + row_text(*s, rows as int, i as int));
            assert(out@ =~= head + rows_text(*s, rows as int, i + 1));
        }
        i += 1;
    }
    out.push_str("\x1b[0m\x1b[?7h");
    push_goto(&mut out, INPUT_LINE, PROMPT_WIDTH + 1);
    proof {
        assert(out@ =~= redrawn(*s, height as int));
    }
    out
}

/// As many bars as that.
pub open spec fn bars(n: nat) -> Seq<char> {
    Seq::new(n, |i: int| '─')
}

fn push_bars(out: &mut String, n: usize)
    ensures
        final(out)@ == old(out)@ + bars(n as nat),
{
    let ghost before = out@;
    let mut i: usize = 0;
    proof {
        assert(out@ =~= before + bars(0));
    }
    while i < n
        invariant
            0 <= i <= n,
            out@ == before + bars(i as nat),
        decreases n - i,
    {
        out.push('─');
        proof {
            assert(out@ =~= before + bars((i + 1) as nat));
        }
        i += 1;
    }
}

/// The line between the two parts, with a note in it where there is one.
pub open spec fn separator(width: nat, status: Option<Seq<char>>) -> Seq<char> {
    goto((LOGO_LINES + 3) as nat, 1) + "\x1b[K"@ + (match status {
        None => "\x1b[2m"@ + bars(width) + "\x1b[0m"@,
        Some(s) => {
            let label = " "@ + s + " "@;
            if label.len() + 6 > width {
                "\x1b[2;33m"@ + label + "\x1b[0m"@
            } else {
                "\x1b[2m"@ + bars(3) + "\x1b[0;33m"@ + label + "\x1b[2m"@ + bars(
                    (width - label.len() - 3) as nat,
                ) + "\x1b[0m"@
            }
        },
    })
}

/// The line between the two parts, with a note in it where there is one.
pub fn draw_separator(width: u16, status: Option<&str>) -> (r: String)
    ensures
        r@ == separator(width as nat, text::opt_str(status)),
{
    let mut out = String::new();
    proof {
        text::lemma_empty_literal();
    }
    push_goto(&mut out, LOGO_LINES + 3, 1);
    out.push_str("\x1b[K");
    match status {
        None => {
            out.push_str("\x1b[2m");
            push_bars(&mut out, width as usize);
            out.push_str("\x1b[0m");
        },
        Some(s) => {
            let mut label = " ".to_owned();
            label.push_str(s);
            label.push_str(" ");
            let lw: usize = chars_of(label.as_str()).len();
            let total: usize = width as usize;
            if lw > total || total - lw < 6 {
                out.push_str("\x1b[2;33m");
                out.push_str(label.as_str());
                out.push_str("\x1b[0m");
            } else {
                out.push_str("\x1b[2m");
                push_bars(&mut out, 3);
                out.push_str("\x1b[0;33m");
                out.push_str(label.as_str());
                out.push_str("\x1b[2m");
                push_bars(&mut out, total - lw - 3);
                out.push_str("\x1b[0m");
            }
        },
    }
    proof {
        assert(out@ =~= separator(width as nat, text::opt_str(status)));
    }
    out
}

/// What the line between the two parts says of how far back the user is.
pub open spec fn status_of(s: ScrollState) -> Option<Seq<char>> {
    if s.view_offset == 0 {
        None
    } else {
        Some(
            "history ↑"@ + text::dec(s.view_offset as nat) + " / "@ + text::dec(s.buffer@.len())
                + " lines  (press Enter or PgDn to follow)"@,
        )
    }
}

/// The line between the two parts, as it is while the user scrolls.
pub fn redraw_status_separator(s: &ScrollState, width: u16) -> (r: String)
    ensures
        r@ == separator(width as nat, status_of(*s)) + to_input(),
{
    let mut out = if s.view_offset == 0 {
        draw_separator(width, None)
    } else {
        let mut label = "history ↑".to_owned();
        label.push_str(decimal_usize(s.view_offset).as_str());
        label.push_str(" / ");
        label.push_str(decimal_usize(s.buffer.len()).as_str());
        label.push_str(" lines  (press Enter or PgDn to follow)");
        draw_separator(width, Some(label.as_str()))
    };
    push_goto(&mut out, INPUT_LINE, PROMPT_WIDTH + 1);
    out
}

/// A line of the logo, coloured character by character.
pub open spec fn coloured_logo(line: Seq<char>) -> Seq<char>
    decreases line.len(),
{
    if line.len() == 0 {
        Seq::empty()
    } else {
        coloured_logo(line.drop_last()) + (if line.last() == '░' {
            "\x1b[2m"@
        } else {
            "\x1b[1;36m"@
        }) + seq![line.last()] + "\x1b[0m"@
    }
}

/// A row of the logo.
pub open spec fn logo_row(row: nat, line: Seq<char>) -> Seq<char> {
    goto(row, 1) + "\x1b[K"@ + coloured_logo(line)
}

/// The part at the top that stays where it is.
pub open spec fn fixed_top(width: nat) -> Seq<char> {
    logo_row(1, "░▀█▀░█░█░█▀▀░█░░░█▀█░█░█░░░░█▀▄░█▀▀"@) + logo_row(
        2,
        "░░█░░░█░░█░░░█░░░█▀█░█▄█░░░░█▀▄░▀▀█"@,
    ) + logo_row(3, "░░▀░░░▀░░▀▀▀░▀▀▀░▀░▀░▀░▀░▀░░▀░▀░▀▀▀"@) + goto(4, 1)
        + "\x1b[K  🦀 \x1b[32m'exit'\x1b[0m quit · \x1b[32m↑↓\x1b[0m input · \x1b[32mPgUp/PgDn\x1b[0m scroll history · \x1b[32mCtrl+R\x1b[0m search"@
        + separator(width, None)
}

fn push_logo_row(out: &mut String, row: u16, line: &str)
    ensures
        final(out)@ == old(out)@ + logo_row(row as nat, line@),
{
    let ghost before = out@;
    push_goto(out, row, 1);
    out.push_str("\x1b[K");
    let cs = chars_of(line);
    let ghost head = out@;
    let mut i: usize = 0;
    proof {
        assert(line@.take(0) =~= Seq::empty());
        assert(out@ =~= head + coloured_logo(line@.take(0)));
    }
    while i < cs.len()
        invariant
            0 <= i <= cs@.len(),
            cs@ == line@,
            out@ == head + coloured_logo(line@.take(i as int)),
        decreases cs@.len() - i,
    {
        let c = cs[i];
        let ghost o0 = out@;
        if c == '░' {
            out.push_str("\x1b[2m");
        } else {
            out.push_str("\x1b[1;36m");
        }
        out.push(c);
        out.push_str("\x1b[0m");
        proof {
            assert(line@.take(i + 1).drop_last() =~= line@.take(i as int));
            assert(line@.take(i + 1).last() == c);
            assert(out@ =~= head + coloured_logo(line@.take(i + 1)));
        }
        i += 1;
    }
    proof {
        assert(line@.take(i as int) =~= line@);
        assert(out@ =~= before + logo_row(row as nat, line@));
    }
}

/// The part at the top that stays where it is.
pub fn draw_fixed_top(width: u16) -> (r: String)
    ensures
        r@ == fixed_top(width as nat),
{
    let mut out = String::new();
    proof {
        text::lemma_empty_literal();
    }
    push_logo_row(&mut out, 1, "░▀█▀░█░█░█▀▀░█░░░█▀█░█░█░░░░█▀▄░█▀▀");
    push_logo_row(&mut out, 2, "░░█░░░█░░█░░░█░░░█▀█░█▄█░░░░█▀▄░▀▀█");
    push_logo_row(&mut out, 3, "░░▀░░░▀░░▀▀▀░▀▀▀░▀░▀░▀░▀░▀░░▀░▀░▀▀▀");
    push_goto(&mut out, 4, 1);
    out.push_str(
        "\x1b[K  🦀 \x1b[32m'exit'\x1b[0m quit · \x1b[32m↑↓\x1b[0m input · \x1b[32mPgUp/PgDn\x1b[0m scroll history · \x1b[32mCtrl+R\x1b[0m search",
    );
    let sep = draw_separator(width, None);
    out.push_str(sep.as_str());
    proof {
        assert(out@ =~= fixed_top(width as nat));
    }
    out
}

/// What is sent at the start.
pub fn setup_scroll_region(width: u16, height: u16) -> (r: String)
    ensures
        r@ == "\x1b[2J"@ + region(height as nat) + fixed_top(width as nat) + goto(
            INPUT_LINE as nat,
            1,
        ),
{
    let mut out = "\x1b[2J".to_owned();
    push_region(&mut out, height);
    out.push_str(draw_fixed_top(width).as_str());
    push_goto(&mut out, INPUT_LINE, 1);
    out
}

/// What is sent at the end.
pub fn restore_scroll_region(height: u16) -> (r: String)
    ensures
        r@ == "\x1b[r"@ + goto(height as nat, 1),
{
    let mut out = "\x1b[r".to_owned();
    push_goto(&mut out, height, 1);
    out
}

/// What is sent before the user types.
pub fn reset_input_area(width: u16, height: u16) -> (r: String)
    ensures
        r@ == region(height as nat) + fixed_top(width as nat) + goto(INPUT_LINE as nat, 1)
            + "\x1b[K"@,
{
    let mut out = String::new();
    proof {
        text::lemma_empty_literal();
    }
    push_region(&mut out, height);
    out.push_str(draw_fixed_top(width).as_str());
    push_goto(&mut out, INPUT_LINE, 1);
    out.push_str("\x1b[K");
    proof {
        assert(out@ =~= region(height as nat) + fixed_top(width as nat) + goto(
            INPUT_LINE as nat,
            1,
        ) + "\x1b[K"@);
    }
    out
}

/// The size of a terminal: what it says, else what the environment says, else
/// eighty columns and twenty-four rows.
pub fn terminal_size(reported: Option<(u16, u16)>, columns: Option<u16>, lines: Option<u16>) -> (r: (
    u16,
    u16,
))
    ensures
        r == (match reported {
            Some((w, h)) if w > 0 && h > 0 => (w, h),
            _ => (
                match columns {
                    Some(c) => c,
                    None => 80,
                },
                match lines {
                    Some(l) => l,
                    None => 24,
                },
            ),
        }),
{
    match reported {
        Some((w, h)) if w > 0 && h > 0 => (w, h),
        _ => (
            match columns {
                Some(c) => c,
                None => 80,
            },
            match lines {
                Some(l) => l,
                None => 24,
            },
        ),
    }
}

/// Prints a line: it is kept, and what is to be sent for it comes back while
/// new lines are followed.
pub fn cli_print(s: &mut ScrollState, msg: &str, height: u16) -> (r: Option<String>)
    requires
        old(s).is_sound(),
    ensures
        final(s).is_sound(),
        final(s).lines() == kept_lines(old(s).lines() + lines_of(msg@)),
        final(s).view_offset == old(s).view_offset,
        message::opt_text(r) == (if old(s).view_offset == 0 {
            Some(appended(msg@, height as nat))
        } else {
            None
        }),
{
    s.push(msg);
    if s.view_offset == 0 {
        Some(append_to_scroll_region(msg, height))
    } else {
        None
    }
}

// ---------------------------------------------------------------------------
// What the user types
// ---------------------------------------------------------------------------

/// What is done with a line that the user has typed.
#[derive(Debug)]
pub enum LineAction {
    /// Nothing was typed.
    Ignore,
    /// Leave.
    Exit { line: String },
    /// Show `echo` and send the line.
    Send { line: String, echo: String },
}

/// What is done with a line that the user has typed.
pub fn read_input(line: &str) -> (r: LineAction)
    ensures
        ({
            let t = text::trim(line@);
            if t.len() == 0 {
                r is Ignore
            } else if text::same_but_case(t, "exit"@) || text::same_but_case(t, "quit"@) {
                r is Exit && r->Exit_line@ == t
            } else {
                r is Send && r->Send_line@ == t && r->echo@ == "\x1b[1;37mYou> "@ + t + "\x1b[0m"@
            }
        }),
{
    let t = str_trim(line);
    if t.as_str().is_empty() {
        return LineAction::Ignore;
    }
    if eq_but_case(t.as_str(), "exit") || eq_but_case(t.as_str(), "quit") {
        return LineAction::Exit { line: t };
    }
    let mut echo = "\x1b[1;37mYou> ".to_owned();
    echo.push_str(t.as_str());
    echo.push_str("\x1b[0m");
    LineAction::Send { line: t, echo }
}

/// The channel of somebody at a terminal.
#[derive(Debug)]
pub struct CliChannel {
    pub user_id: String,
    pub workspace_id: String,
    /// What is shown at the start.
    pub startup_lines: Vec<String>,
}

impl CliChannel {
    /// The channel of a user.
    pub fn new(user_id: &str, workspace_id: &str) -> (r: Self)
        ensures
            r.user_id@ == user_id@,
            r.workspace_id@ == workspace_id@,
            r.startup_lines@.len() == 0,
    {
        CliChannel {
            user_id: user_id.to_owned(),
            workspace_id: workspace_id.to_owned(),
            startup_lines: Vec::new(),
        }
    }

    /// The same channel, with what is shown at the start.
    pub fn with_startup_lines(self, lines: Vec<String>) -> (r: Self)
        ensures
            r == (CliChannel { startup_lines: lines, ..self }),
    {
        CliChannel { startup_lines: lines, ..self }
    }

    /// The message that a line is.
    pub fn inbound(&self, input: String) -> (r: InboundMessage)
        ensures
            r.content == input,
            r.user_id@ == self.user_id@,
            r.user_name@ == "cli_user"@,
            r.workspace_id@ == self.workspace_id@,
            r.channel@ == "cli"@,
            r.chat_id@ == "direct"@,
            r.conversation_id is None,
            r.images@.len() == 0,
            r.files@.len() == 0,
            !r.awaits_reply,
            !r.is_timer,
            r.emotion_context is None,
    {
        InboundMessage {
            content: input,
            user_id: self.user_id.clone(),
            user_name: "cli_user".to_owned(),
            workspace_id: self.workspace_id.clone(),
            channel: "cli".to_owned(),
            chat_id: "direct".to_owned(),
            conversation_id: None,
            images: Vec::new(),
            files: Vec::new(),
            awaits_reply: false,
            is_timer: false,
            emotion_context: None,
        }
    }
}

/// Of all lines the newest are kept, as many as fit, in their order.
pub proof fn law_newest_lines_are_kept(lines: Seq<Seq<char>>, i: int)
    requires
        0 <= i < lines.len(),
        i < HISTORY_CAP,
    ensures
        kept_lines(lines).len() > i,
        kept_lines(lines)[kept_lines(lines).len() - 1 - i] == lines[lines.len() - 1 - i],
        lines.len() <= HISTORY_CAP ==> kept_lines(lines) == lines,
{
}

/// Where the user has not scrolled back and the newest line has room, it is
/// drawn in the last row that lines are drawn in, and the others above it.
pub proof fn law_lines_are_drawn_in_order(s: ScrollState, rows: int, i: int)
    requires
        s.view_offset == 0,
        0 <= i < rows - 1,
        i < s.lines().len(),
    ensures
        text::contains(
            row_text(
                s,
                rows,
                if s.lines().len() > rows - 1 {
                    rows - 2 - i
                } else {
                    s.lines().len() - 1 - i
                },
            ),
            s.lines()[s.lines().len() - 1 - i],
        ),
{
    let r = if s.lines().len() > rows - 1 {
        rows - 2 - i
    } else {
        s.lines().len() - 1 - i
    };
    let l = s.lines()[s.lines().len() - 1 - i];
    let head = goto((FIXED_TOP_LINES + 1 + r) as nat, 1) + "\x1b[0m\x1b[K"@;
    let t = row_text(s, rows, r);
    assert(t =~= head + l + "\x1b[0m"@);
    text::lemma_contains_part(head, l, "\x1b[0m"@);
}

/// All rows are drawn.
pub proof fn law_every_row_is_drawn(s: ScrollState, height: int, i: int)
    requires
        0 <= i < scroll_rows(height),
    ensures
        text::contains(redrawn(s, height), row_text(s, scroll_rows(height), i)),
{
    let rows = scroll_rows(height);
    let all = rows_text(s, rows, rows);
    lemma_row_is_there(s, rows, rows, i);
    let head = region(height as nat) + "\x1b[?7l"@;
    let tail = "\x1b[0m\x1b[?7h"@ + to_input();
    assert(redrawn(s, height) =~= head + all + tail);
    text::lemma_contains_part(head, all, tail);
    text::lemma_contains_within(redrawn(s, height), all, row_text(s, rows, i));
}

proof fn lemma_row_is_there(s: ScrollState, rows: int, n: int, i: int)
    requires
        0 <= i < n,
    ensures
        text::contains(rows_text(s, rows, n), row_text(s, rows, i)),
    decreases n,
{
    let front = rows_text(s, rows, n - 1);
    let last = row_text(s, rows, n - 1);
    let none = Seq::<char>::empty();
    if i == n - 1 {
        assert(rows_text(s, rows, n) =~= front + last + none);
        text::lemma_contains_part(front, last, none);
    } else {
        lemma_row_is_there(s, rows, n - 1, i);
        assert(rows_text(s, rows, n) =~= none + front + last);
        text::lemma_contains_part(none, front, last);
        text::lemma_contains_within(rows_text(s, rows, n), front, row_text(s, rows, i));
    }
}

/// A line that is added below the others is sent as it is, and a status is
/// shown as it is.
pub proof fn law_added_line_is_sent(msg: Seq<char>, height: nat, width: nat)
    ensures
        text::contains(appended(msg, height), msg),
        text::contains(separator(width, Some(msg)), msg),
{
    let a = region(height) + goto(height, 1) + "\x1b[0m"@;
    let b = "\x1b[0m\n"@ + to_input();
    assert(text::contains(appended(msg, height), msg)) by {
        assert(appended(msg, height) =~= a + msg + b);
        text::lemma_contains_part(a, msg, b);
    }
    let label = " "@ + msg + " "@;
    let s = separator(width, Some(msg));
    assert(text::contains(s, label)) by {
        let head = goto((LOGO_LINES + 3) as nat, 1) + "\x1b[K"@;
        if label.len() + 6 > width {
            let f = head + "\x1b[2;33m"@;
            assert(s =~= f + label + "\x1b[0m"@);
            text::lemma_contains_part(f, label, "\x1b[0m"@);
        } else {
            let f = head + "\x1b[2m"@ + bars(3) + "\x1b[0;33m"@;
            let t = s.skip((f.len() + label.len()) as int);
            assert(s =~= f + label + t);
            text::lemma_contains_part(f, label, t);
        }
    }
    text::lemma_contains_part(" "@, msg, " "@);
    text::lemma_contains_within(s, label, msg);
}

proof fn lemma_plain_line(a: Seq<char>, b: Seq<char>, cur: Seq<char>, sgr: Seq<char>)
    requires
        forall|i: int| 0 <= i < a.len() ==> #[trigger] a[i] != '\x1b' && a[i] != '\n',
    ensures
        coloured_lines(a + seq!['\n'] + b, cur, sgr) == seq![cur + a] + coloured_lines(
            b,
            colour_prefix(sgr),
            sgr,
        ),
    decreases a.len(),
{
    let s = a + seq!['\n'] + b;
    if a.len() == 0 {
        assert(s[0] == '\n');
        assert(s.skip(1) =~= b);
        assert(cur + a =~= cur);
    } else {
        assert(s[0] == a[0]);
        let t = a.skip(1);
        assert(s.skip(1) =~= t + seq!['\n'] + b);
        assert forall|i: int| 0 <= i < t.len() implies #[trigger] t[i] != '\x1b' && t[i] != '\n' by {
            assert(t[i] == a[i + 1]);
        }
        lemma_plain_line(t, b, cur.push(a[0]), sgr);
        assert(cur.push(a[0]) + t =~= cur + a);
    }
}

proof fn lemma_params_end(p: Seq<char>, rest: Seq<char>)
    requires
        forall|i: int| 0 <= i < p.len() ==> !is_letter(#[trigger] p[i]),
    ensures
        params_len(p + seq!['m'] + rest) == p.len(),
    decreases p.len(),
{
    let s = p + seq!['m'] + rest;
    if p.len() > 0 {
        let q = p.skip(1);
        assert(s.skip(1) =~= q + seq!['m'] + rest);
        assert forall|i: int| 0 <= i < q.len() implies !is_letter(#[trigger] q[i]) by {
            assert(q[i] == p[i + 1]);
        }
        lemma_params_end(q, rest);
        assert(s[0] == p[0]);
    } else {
        assert(s[0] == 'm');
    }
}

/// A line that sets colours is kept with them, and the next line begins with
/// the colours that are in force.
pub proof fn law_colours_reach_the_next_line(p: Seq<char>, a: Seq<char>, b: Seq<char>)
    requires
        p.len() > 0,
        p != "0"@,
        forall|i: int| 0 <= i < p.len() ==> !is_letter(#[trigger] p[i]),
        forall|i: int| 0 <= i < a.len() ==> #[trigger] a[i] != '\x1b' && a[i] != '\n',
    ensures
        ({
            let set = seq!['\x1b', '['] + p + seq!['m'];
            lines_of(set + a + seq!['\n'] + b) == seq![set + a] + coloured_lines(b, set, p)
        }),
{
    let set = seq!['\x1b', '['] + p + seq!['m'];
    let rest = a + seq!['\n'] + b;
    let s = set + a + seq!['\n'] + b;
    let t = s.skip(2);
    assert(t =~= p + seq!['m'] + rest);
    lemma_params_end(p, rest);
    assert(t.take(p.len() as int) =~= p);
    assert(t[p.len() as int] == 'm');
    assert(t.skip(p.len() as int + 1) =~= rest);
    assert(starts_sequence(s));
    let none = Seq::<char>::empty();
    assert(none + csi() + p + seq!['m'] =~= set);
    lemma_plain_line(a, b, set, p);
    assert(colour_prefix(p) =~= set);
}

/// The line between the two parts tells how far back the user is and how many
/// lines there are, and says nothing to a user who has not scrolled back.
pub proof fn law_status_tells_the_place(s: ScrollState)
    ensures
        s.view_offset == 0 <==> status_of(s) is None,
        s.view_offset > 0 ==> text::contains(status_of(s)->0, text::dec(s.view_offset as nat))
            && text::contains(status_of(s)->0, text::dec(s.buffer@.len())),
{
    if s.view_offset > 0 {
        let t = status_of(s)->0;
        let d = text::dec(s.view_offset as nat);
        let e = text::dec(s.buffer@.len());
        assert(text::contains(t, d)) by {
            let a = "history ↑"@;
            let b = t.skip((a.len() + d.len()) as int);
            assert(t =~= a + d + b);
            text::lemma_contains_part(a, d, b);
        }
        let a = "history ↑"@ + d + " / "@;
        let b = " lines  (press Enter or PgDn to follow)"@;
        text::lemma_contains_part(a, e, b);
    }
}

/// The top part ends with the line between the two parts.
pub proof fn law_top_ends_with_the_separator(width: nat)
    ensures
        text::ends_with(fixed_top(width), separator(width, None)),
{
    let t = fixed_top(width);
    let s = separator(width, None);
    assert(t.subrange(t.len() - s.len(), t.len() as int) =~= s);
}

/// Every character of the logo is drawn, in its order.
pub proof fn law_logo_is_drawn_whole(line: Seq<char>, i: int)
    requires
        0 <= i < line.len(),
    ensures
        text::contains(coloured_logo(line), seq![line[i]]),
        coloured_logo(line).len() >= line.len(),
    decreases line.len(),
{
    let p = line.drop_last();
    let front = coloured_logo(p);
    let head = if line.last() == '░' {
        "\x1b[2m"@
    } else {
        "\x1b[1;36m"@
    };
    let last = seq![line.last()];
    let none = Seq::<char>::empty();
    if i < p.len() {
        assert(p[i] == line[i]);
        law_logo_is_drawn_whole(p, i);
        let tail = head + last + "\x1b[0m"@;
        assert(coloured_logo(line) =~= none + front + tail);
        text::lemma_contains_part(none, front, tail);
        text::lemma_contains_within(coloured_logo(line), front, seq![line[i]]);
    } else {
        text::lemma_contains_part(front + head, last, "\x1b[0m"@);
        if p.len() > 0 {
            law_logo_is_drawn_whole(p, 0);
        }
    }
}

} // verus!
