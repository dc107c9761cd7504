//! Helpers and limits of the agent loop.

use crate::json;
use crate::json::{parse, Json, JsonView};
use crate::message;
use crate::message::{Content, ContentView, Message, MessageView, ToolCallRequest, ToolCallView};
use crate::order;
use crate::order::sort_pairs;
use crate::prompt::context;
use crate::prompt::context::strip_non_task_user_message;
use crate::seqs;
use crate::text;
use crate::text::{
    char_is_white, chars_of, decimal_usize, find_at, is_blank, matches_at, str_contains, str_eq, str_join, str_replace, str_split_str,
    str_starts_with, str_take_chars, str_trim, str_words, string_of,
};
use vstd::prelude::*;

verus! {

/// How often the same batch of tool calls may repeat before the loop stops.
pub const MAX_REPEAT_TOOL_BATCH: usize = 3;

/// How many rounds in a row may bring nothing before the loop stops.
pub const MAX_NO_PROGRESS_ROUNDS: usize = 2;

/// How many bytes of a tool output are kept in the production phase.
pub const MAX_TOOL_OUTPUT_CHARS: usize = 4000;

/// How many bytes of a tool output are kept in the exploration phase.
pub const MAX_TOOL_OUTPUT_CHARS_EXPLORE: usize = 3500;

/// How many bytes of a file that was read are kept.
pub const READ_FILE_TOOL_MAX_CHARS: usize = 98304;

/// The share of the rounds, in percent, that exploration may take.
pub const EXPLORE_MAX_RATIO_PERCENT: usize = 30;

/// How many rounds exploration may take, whatever its share.
pub const EXPLORE_ABSOLUTE_CAP: usize = 30;

/// How many of the newest tool results are kept whole.
pub const TOOL_RESULT_FRESH_COUNT: usize = 8;

/// How many bytes are kept of a tool result that is not new any more.
pub const TOOL_RESULT_MEDIUM_CHARS: usize = 700;

/// From which age on only a summary of a tool result is kept.
pub const TOOL_RESULT_OLD_COUNT: usize = 20;

/// How many of the newest rounds are not compressed.
pub const LIGHT_COMPRESS_RECENT_ROUNDS: usize = 6;

/// How many of the newest assistant messages keep their arguments whole.
pub const TOOL_CALL_ARGS_FRESH_COUNT: usize = 4;

/// From which age on only a summary of the arguments is kept.
pub const TOOL_CALL_ARGS_OLD_COUNT: usize = 10;

/// How many bytes of the arguments are kept in between.
pub const TOOL_CALL_ARGS_MEDIUM_CHARS: usize = 520;

/// How long the summary of a script may be at middle age.
pub const EXEC_INTENT_MEDIUM_MAX_CHARS: usize = 800;

/// How long the summary of a script may be when it is old.
pub const EXEC_INTENT_OLD_MAX_CHARS: usize = 300;

/// From which length on an inline script is passed on standard input.
pub const EXEC_INLINE_EXTRACT_THRESHOLD: usize = 2000;

/// In how many first rounds a plan is asked for; none.
pub const PLAN_CHECK_ITERATIONS: usize = 0;

/// How often the same long command may run before it is held back.
pub const REPEAT_EXEC_BLOCK_THRESHOLD: usize = 2;

/// From which length on a command counts as long.
pub const REPEAT_EXEC_MIN_CMD_LEN: usize = 120;

/// How many commands are remembered.
pub const EXEC_HISTORY_WINDOW: usize = 12;

/// Written behind the last message of a run that reached its limit.
pub const MAX_REACHED_RESET_MARKER: &'static str = "[[TYCLAW_MAX_REACHED_RESET_NEXT_RUN]]";

/// For how many rounds the system prompt stays whole; none.
pub const EXTENDED_SYSTEM_ROUNDS: usize = 0;

/// Marks a system prompt that has been shortened.
pub const COMPACT_SYSTEM_MARKER: &'static str = "[[TYCLAW_COMPACT_SYSTEM]]";

/// Where the part of the system prompt ends that never changes.
pub const CACHE_BOUNDARY: &'static str = "[[CACHE_BOUNDARY]]";

/// How many of the newest long assistant texts are shortened only lightly.
pub const ASSISTANT_TEXT_LIGHT_KEEP: usize = 5;

/// From which length on an assistant text is shortened.
pub const ASSISTANT_TEXT_COMPACT_THRESHOLD: usize = 700;

/// How many characters stay at the front of a text that is shortened a lot.
pub const ASSISTANT_TEXT_KEEP_PREFIX: usize = 180;

/// How many characters stay at the end of a text that is shortened a lot.
pub const ASSISTANT_TEXT_KEEP_SUFFIX: usize = 100;

/// Marks an assistant text that has been shortened.
pub const COMPACT_ASSISTANT_MARKER: &'static str = "[[TYCLAW_COMPACT_ASSISTANT]]";

// ---------------------------------------------------------------------------
// Texts of a model
// ---------------------------------------------------------------------------

/// `s` without the parts from a `<think>` to the next `</think>`.
pub open spec fn without_think(s: Seq<char>) -> Seq<char>
    decreases s.len(),
{
    match text::find_from(s, "<think>"@, 0) {
        Some(i) => match text::find_from(s, "</think>"@, i + "<think>"@.len()) {
            Some(j) if 0 <= i < j + "</think>"@.len() <= s.len() => s.take(i) + without_think(
                s.skip(j + "</think>"@.len()),
            ),
            _ => s,
        },
        None => s,
    }
}

/// The text without the parts from a `<think>` to the next `</think>`.
fn cut_think(s: &str) -> (r: String)
    ensures
        r@ == without_think(s@),
{
    let cs = chars_of(s);
    let open = chars_of("<think>");
    let close = chars_of("</think>");
    let n: usize = cs.len();
    let mut r = String::new();
    let mut at: usize = 0;
    proof {
        reveal_strlit("<think>");
        reveal_strlit("</think>");
        assert(s@.skip(0) =~= s@);
    }
    loop
        invariant
            n == s@.len(),
            cs@ == s@,
            open@ == "<think>"@,
            close@ == "</think>"@,
            open@.len() == 7,
            close@.len() == 8,
            0 <= at <= s@.len(),
            without_think(s@) == r@ + without_think(s@.skip(at as int)),
        decreases s@.len() - at,
    {
        let ghost rest = s@.skip(at as int);
        proof {
            text::lemma_find_shift(s@, open@, at as int, 0);
            text::lemma_find_from(s@, open@, at as int);
        }
        if let Some(i) = find_at(cs.as_slice(), open.as_slice(), at) {
            proof {
                text::lemma_find_shift(s@, close@, at as int, i - at + 7);
                text::lemma_find_from(s@, close@, i + 7);
            }
            if let Some(j) = find_at(cs.as_slice(), close.as_slice(), i + 7) {
                let before = string_of(cs.as_slice(), at, i);
                proof {
                    assert(rest.take(i - at) =~= before@);
                    assert(rest.skip(j - at + 8) =~= s@.skip(j + 8));
                }
                r.push_str(before.as_str());
                at = j + 8;
                continue;
            }
        }
        let tail = string_of(cs.as_slice(), at, n);
        proof {
            assert(rest =~= tail@);
        }
        r.push_str(tail.as_str());
        return r;
    }
}

/// What is left of a text once the thinking is taken out and the ends are
/// trimmed; nothing where nothing is left.
pub open spec fn stripped(t: Option<Seq<char>>) -> Option<Seq<char>> {
    match t {
        Some(s) => {
            let c = text::trim(without_think(s));
            if c.len() > 0 {
                Some(c)
            } else {
                None
            }
        },
        None => None,
    }
}

/// The text without the thinking of the model, where anything is left.
pub fn strip_think(t: Option<&str>) -> (r: Option<String>)
    ensures
        message::opt_text(r) == stripped(text::opt_str(t)),
{
    match t {
        Some(s) => {
            let cut = cut_think(s);
            let c = str_trim(cut.as_str());
            if c.as_str().is_empty() {
                None
            } else {
                Some(c)
            }
        },
        None => None,
    }
}

/// The task in a user message, or the empty string.
pub open spec fn task_or_empty(input: Seq<char>) -> Seq<char> {
    match context::task_of(input) {
        Some(t) => t,
        None => Seq::empty(),
    }
}

/// The task in a user message, or the empty string.
pub fn strip_runtime_context_tag(input: &str) -> (r: String)
    ensures
        r@ == task_or_empty(input@),
{
    match strip_non_task_user_message(input) {
        Some(t) => t,
        None => String::new(),
    }
}

/// Whether a message is a user message that holds a task.
pub open spec fn has_task(m: MessageView) -> bool {
    &&& m.has_role("user"@)
    &&& m.text() is Some
    &&& text::trim(task_or_empty(m.text()->0)).len() > 0
}

/// The task of the last user message that holds one.
pub open spec fn goal_of(ms: Seq<MessageView>) -> Seq<char>
    decreases ms.len(),
{
    if ms.len() == 0 {
        "Complete the current user request with minimal redundant tool calls."@
    } else if has_task(ms.last()) {
        task_or_empty(ms.last().text()->0)
    } else {
        goal_of(ms.drop_last())
    }
}

/// The task of the last user message that holds one.
pub fn latest_user_goal(messages: &Vec<Message>) -> (r: String)
    ensures
        r@ == goal_of(message::views(messages@)),
{
    let ghost ms = message::views(messages@);
    let mut i: usize = messages.len();
    proof {
        assert(ms.take(i as int) =~= ms);
    }
    while i > 0
        invariant
            0 <= i <= messages@.len(),
            ms == message::views(messages@),
            goal_of(ms) == goal_of(ms.take(i as int)),
        decreases i,
    {
        i -= 1;
        let m = &messages[i];
        proof {
            let t = ms.take(i + 1);
            assert(t.last() == m@);
            assert(t.drop_last() =~= ms.take(i as int));
        }
        if m.has_role("user") {
            if let Some(content) = m.text() {
                let cleaned = strip_runtime_context_tag(content);
                if !is_blank(cleaned.as_str()) {
                    return cleaned;
                }
            }
        }
    }
    "Complete the current user request with minimal redundant tool calls.".to_owned()
}

// ---------------------------------------------------------------------------
// Commands
// ---------------------------------------------------------------------------

/// A command with its runs of white space folded into single spaces.
pub open spec fn folded(cmd: Seq<char>) -> Seq<char> {
    text::join(text::words(cmd), " "@)
}

/// A command with its runs of white space folded into single spaces.
pub fn normalize_exec_for_repeat(cmd: &str) -> (r: String)
    ensures
        r@ == folded(cmd@),
{
    let w = str_words(cmd);
    str_join(&w, " ")
}

/// What `DefaultHasher` of std, started with `new`, makes of a string.
pub uninterp spec fn text_hash(s: Seq<char>) -> u64;

/// `Hash::hash` of a string into a `DefaultHasher` of std that was made by
/// `new`, and its `finish`. Hashers that are made by `new` all start alike, so
/// the result depends on the string alone; nothing more is said of it.
#[verifier::external_body]
pub(crate) fn hash_text(s: &str) -> (r: u64)
    ensures
        r == text_hash(s@),
{
    let mut h = std::collections::hash_map::DefaultHasher::new();
    std::hash::Hash::hash(s, &mut h);
    std::hash::Hasher::finish(&h)
}

/// A number by which two commands are taken for the same.
pub fn exec_command_fingerprint(cmd: &str) -> (r: u64)
    ensures
        r == text_hash(folded(cmd@)),
{
    let s = normalize_exec_for_repeat(cmd);
    hash_text(s.as_str())
}

/// Commands that differ only in white space have the same fingerprint.
pub proof fn law_fingerprint_ignores_spacing(a: Seq<char>, b: Seq<char>)
    requires
        text::words(a) == text::words(b),
    ensures
        text_hash(folded(a)) == text_hash(folded(b)),
{
}

// ---------------------------------------------------------------------------
// Inline scripts
// ---------------------------------------------------------------------------

/// Whether there is nothing but white space from `i` to `j`.
pub open spec fn all_white(s: Seq<char>, i: int, j: int) -> bool {
    forall|k: int| i <= k < j ==> text::is_white(#[trigger] s[k])
}

/// Whether there is no white space from `i` to `j`.
pub open spec fn none_white(s: Seq<char>, i: int, j: int) -> bool {
    forall|k: int| i <= k < j ==> !text::is_white(#[trigger] s[k])
}

/// Where the white space that starts at `i` ends.
pub open spec fn white_end(s: Seq<char>, i: int) -> int
    decreases s.len() - i,
{
    if 0 <= i < s.len() && text::is_white(s[i]) {
        white_end(s, i + 1)
    } else {
        i
    }
}

/// Where the name of the interpreter that starts at `i` ends.
pub open spec fn python_end(s: Seq<char>, i: int) -> Option<int> {
    if text::occurs_at(s, "python3"@, i) {
        Some(i + 7)
    } else if text::occurs_at(s, "python"@, i) {
        Some(i + 6)
    } else {
        None
    }
}

/// Where the first quote `q` from `i` on is that no backslash stands for.
pub open spec fn quote_end(s: Seq<char>, i: int, q: char) -> Option<int>
    decreases s.len() + 1 - i,
{
    if i < 0 || i >= s.len() {
        None
    } else if s[i] == q {
        Some(i)
    } else if s[i] == '\\' {
        quote_end(s, i + 2, q)
    } else {
        quote_end(s, i + 1, q)
    }
}

/// The script, as it stands between its quotes, of a call of the interpreter
/// that starts at `i` and takes the rest of the command: the interpreter, the
/// option `-c`, the quoted script.
pub open spec fn script_at(s: Seq<char>, i: int) -> Option<Seq<char>> {
    match python_end(s, i) {
        Some(a) => {
            let b = white_end(s, a);
            let c = white_end(s, b + 2);
            if a < b && text::occurs_at(s, "-c"@, b) && b + 2 < c < s.len() && (s[c] == '"' || s[c]
                == '\'') {
                match quote_end(s, c + 1, s[c]) {
                    Some(e) => if all_white(s, e + 1, s.len() as int) {
                        Some(s.subrange(c + 1, e))
                    } else {
                        None
                    },
                    None => None,
                }
            } else {
                None
            }
        },
        None => None,
    }
}

/// Whether the command up to `p` is `cd`, a directory from `a` to `b`, and
/// `&&` at `c`.
pub open spec fn is_cd(s: Seq<char>, p: int, a: int, b: int, c: int) -> bool {
    &&& text::occurs_at(s, "cd"@, 0)
    &&& 2 < a < b <= c
    &&& c + 2 <= p <= s.len()
    &&& all_white(s, 2, a)
    &&& none_white(s, a, b)
    &&& all_white(s, b, c)
    &&& text::occurs_at(s, "&&"@, c)
    &&& all_white(s, c + 2, p)
}

/// Whether nothing stands in front of `p`, or a change of directory.
pub open spec fn may_precede(s: Seq<char>, p: int) -> bool {
    p == 0 || exists|a: int, b: int, c: int| #[trigger] is_cd(s, p, a, b, c)
}

/// Whether the command is a call of the interpreter with an inline script
/// that starts at `p`, with nothing but a change of directory in front.
pub open spec fn calls_python(s: Seq<char>, p: int) -> bool {
    script_at(s, p) is Some && may_precede(s, p)
}

/// What stands in front of the interpreter, and the script, of a command that
/// is a call of the interpreter with an inline script.
pub open spec fn inline_python(cmd: Seq<char>) -> Option<(Seq<char>, Seq<char>)> {
    match seqs::first_from(|p: int| calls_python(cmd, p), 0, cmd.len() as int) {
        Some(p) => Some((cmd.take(p), script_at(cmd, p)->0)),
        None => None,
    }
}

proof fn lemma_white_end(s: Seq<char>, i: int)
    requires
        0 <= i <= s.len(),
    ensures
        i <= white_end(s, i) <= s.len(),
        all_white(s, i, white_end(s, i)),
        white_end(s, i) < s.len() ==> !text::is_white(s[white_end(s, i)]),
    decreases s.len() - i,
{
    if i < s.len() && text::is_white(s[i]) {
        lemma_white_end(s, i + 1);
    }
}

fn find_white_end(s: &[char], i: usize) -> (r: usize)
    requires
        i <= s@.len(),
    ensures
        r == white_end(s@, i as int),
        i <= r <= s@.len(),
{
    let mut k: usize = i;
    while k < s.len() && char_is_white(s[k])
        invariant
            i <= k <= s@.len(),
            white_end(s@, i as int) == white_end(s@, k as int),
        decreases s@.len() - k,
    {
        k += 1;
    }
    k
}

fn find_quote_end(s: &[char], i: usize, q: char) -> (r: Option<usize>)
    ensures
        r matches Some(e) ==> quote_end(s@, i as int, q) == Some(e as int) && i <= e < s@.len(),
        r is None ==> quote_end(s@, i as int, q) is None,
{
    let n: usize = s.len();
    let mut k: usize = i;
    while k < n
        invariant
            i <= k,
            n == s@.len(),
            quote_end(s@, i as int, q) == quote_end(s@, k as int, q),
        decreases n - k,
    {
        let c = s[k];
        if c == q {
            return Some(k);
        }
        if c == '\\' {
            if n - k < 2 {
                proof {
                    assert(quote_end(s@, k + 2, q) is None);
                }
                return None;
            }
            k += 2;
        } else {
            k += 1;
        }
    }
    None
}

fn is_all_white(s: &[char], i: usize, j: usize) -> (r: bool)
    requires
        i <= j <= s@.len(),
    ensures
        r == all_white(s@, i as int, j as int),
{
    let mut k: usize = i;
    while k < j
        invariant
            i <= k <= j <= s@.len(),
            all_white(s@, i as int, k as int),
        decreases j - k,
    {
        if !char_is_white(s[k]) {
            return false;
        }
        k += 1;
    }
    true
}

/// The script of a call of the interpreter that starts at `i`.
fn find_script(s: &[char], i: usize) -> (r: Option<String>)
    requires
        i <= s@.len(),
    ensures
        message::opt_text(r) == script_at(s@, i as int),
{
    proof {
        reveal_strlit("python3");
        reveal_strlit("python");
        reveal_strlit("-c");
    }
    let n: usize = s.len();
    let long = chars_of("python3");
    let short = chars_of("python");
    let a: usize = if matches_at(s, long.as_slice(), i) {
        i + 7
    } else if matches_at(s, short.as_slice(), i) {
        i + 6
    } else {
        return None;
    };
    let b = find_white_end(s, a);
    let option = chars_of("-c");
    if a == b || !matches_at(s, option.as_slice(), b) {
        return None;
    }
    let c = find_white_end(s, b + 2);
    if c == b + 2 || c == n {
        return None;
    }
    let q = s[c];
    if q != '"' && q != '\'' {
        return None;
    }
    match find_quote_end(s, c + 1, q) {
        Some(e) => if is_all_white(s, e + 1, n) {
            Some(string_of(s, c + 1, e))
        } else {
            None
        },
        None => None,
    }
}

/// The parts of a change of directory up to `p` are where they can be found
/// from its two ends.
proof fn lemma_cd_ends(s: Seq<char>, p: int, a: int, b: int, c: int, e: int)
    requires
        is_cd(s, p, a, b, c),
        2 <= e <= p,
        all_white(s, e, p),
        e > 2 ==> !text::is_white(s[e - 1]),
    ensures
        a == white_end(s, 2),
        c + 2 == e,
{
    reveal_strlit("&&");
    let w = white_end(s, 2);
    lemma_white_end(s, 2);
    assert(!text::is_white(s[a]));
    assert(s.subrange(c, c + 2)[1] == '&');
    assert(s[c + 1] == '&');
    if w < a {
        assert(text::is_white(s[w]));
    }
    if e < c + 2 {
        assert(text::is_white(s[c + 1]));
    }
    if e > c + 2 {
        assert(text::is_white(s[e - 1]));
    }
}

fn precedes(s: &[char], p: usize) -> (r: bool)
    requires
        p <= s@.len(),
    ensures
        r == may_precede(s@, p as int),
{
    if p == 0 {
        return true;
    }
    proof {
        reveal_strlit("cd");
        reveal_strlit("&&");
    }
    let cd = chars_of("cd");
    let and = chars_of("&&");
    if p < 6 || !matches_at(s, cd.as_slice(), 0) {
        return false;
    }
    let a = find_white_end(s, 2);
    let mut e: usize = p;
    while e > 2 && char_is_white(s[e - 1])
        invariant
            2 <= e <= p <= s@.len(),
            all_white(s@, e as int, p as int),
        decreases e,
    {
        e -= 1;
    }
    proof {
        lemma_white_end(s@, 2);
        assert forall|x: int, y: int, z: int| #[trigger] is_cd(s@, p as int, x, y, z) implies x == a
            && z + 2 == e by {
            lemma_cd_ends(s@, p as int, x, y, z, e as int);
        }
    }
    if a == 2 || e < 2 || e - 2 <= a || !matches_at(s, and.as_slice(), e - 2) {
        return false;
    }
    let c: usize = e - 2;
    let mut b: usize = a;
    while b < c && !char_is_white(s[b])
        invariant
            a <= b <= c <= s@.len(),
            none_white(s@, a as int, b as int),
        decreases c - b,
    {
        b += 1;
    }
    let r = is_all_white(s, b, c);
    proof {
        if r {
            assert(b > a);
            assert(is_cd(s@, p as int, a as int, b as int, c as int));
        }
        assert forall|x: int, y: int, z: int| #[trigger] is_cd(s@, p as int, x, y, z) implies r by {
            if y < b {
                assert(!text::is_white(s@[y]));
            }
            if y > b {
                assert(!text::is_white(s@[b as int]));
            }
        }
    }
    r
}

/// What stands in front of the interpreter, and the script, of a command that
/// is a call of the interpreter with an inline script.
pub fn inline_python_parts(cmd: &str) -> (r: Option<(String, String)>)
    ensures
        inline_python(cmd@) == (match r {
            Some(p) => Some((p.0@, p.1@)),
            None => None::<(Seq<char>, Seq<char>)>,
        }),
{
    let cs = chars_of(cmd);
    let n: usize = cs.len();
    let ghost f = |p: int| calls_python(cmd@, p);
    let mut p: usize = 0;
    while p < n
        invariant
            0 <= p <= n == cs@.len(),
            cs@ == cmd@,
            f == (|p: int| calls_python(cmd@, p)),
            seqs::first_from(f, 0, n as int) == seqs::first_from(f, p as int, n as int),
        decreases n - p,
    {
        if let Some(script) = find_script(cs.as_slice(), p) {
            if precedes(cs.as_slice(), p) {
                let prefix = string_of(cs.as_slice(), 0, p);
                proof {
                    assert(prefix@ =~= cmd@.take(p as int));
                    assert(f(p as int));
                }
                return Some((prefix, script));
            }
        }
        proof {
            assert(!f(p as int));
        }
        p += 1;
    }
    None
}

/// A command is a call of the interpreter in one way at most.
pub proof fn law_inline_python_is_found_once(s: Seq<char>, p: int, q: int)
    requires
        calls_python(s, p),
        calls_python(s, q),
        0 <= p <= q,
    ensures
        p == q,
{
    reveal_strlit("python3");
    reveal_strlit("python");
    reveal_strlit("-c");
    reveal_strlit("cd");
    reveal_strlit("&&");
    if p < q {
        let e = python_end(s, p)->0;
        let long = text::occurs_at(s, "python3"@, p);
        assert(long ==> s.subrange(p, p + 7)[0] == 'p');
        assert(!long ==> s.subrange(p, p + 6)[0] == 'p');
        assert(s[p] == 'p');
        let (a, b, c) = choose|a: int, b: int, c: int| #[trigger] is_cd(s, q, a, b, c);
        assert(s.subrange(0, 2)[0] == 'c');
        assert(p != 0);
        let (a2, b2, c2) = choose|a: int, b: int, c: int| #[trigger] is_cd(s, p, a, b, c);
        lemma_white_end(s, 2);
        assert(a == a2) by {
            if a < a2 {
                assert(text::is_white(s[a]));
            }
            if a2 < a {
                assert(text::is_white(s[a2]));
            }
        }
        assert(s.subrange(c, c + 2)[0] == '&' && s.subrange(c, c + 2)[1] == '&');
        assert(s[c] == '&' && s[c + 1] == '&');
        assert(!text::is_white(s[p]));
        assert(p < c);
        assert(p < b);
        assert forall|k: int| p <= k < e implies #[trigger] s[k] != '&' && !text::is_white(s[k]) by {
            if long {
                assert(s.subrange(p, p + 7)[k - p] == s[k]);
            } else {
                assert(s.subrange(p, p + 6)[k - p] == s[k]);
            }
        }
        let d = white_end(s, e);
        lemma_white_end(s, e);
        assert(s.subrange(d, d + 2)[0] == '-');
        assert(text::is_white(s[e]));
        assert(b <= e);
        if b < e {
            assert(b == c);
        } else {
            assert(d <= c);
            if d < c {
                assert(text::is_white(s[d]));
            }
        }
    }
}

/// A script without the escapes of its quotes.
pub open spec fn unescaped_script(s: Seq<char>) -> Seq<char> {
    text::replace_all(
        text::replace_all(
            text::replace_all(
                text::replace_all(text::replace_all(s, "\\n"@, "\n"@), "\\t"@, "\t"@),
                "\\\""@,
                "\""@,
            ),
            "\\'"@,
            "'"@,
        ),
        "\\\\"@,
        "\\"@,
    )
}

/// The command that feeds a script to the interpreter on standard input.
pub open spec fn heredoc(prefix: Seq<char>, script: Seq<char>) -> Seq<char> {
    prefix + "python3 << 'PYEOF'\n"@ + unescaped_script(script) + "\nPYEOF"@
}

/// The command that feeds a captured script to the interpreter on standard
/// input, behind what stood in front of it.
pub fn heredoc_command(prefix: &str, script: &str) -> (r: String)
    ensures
        r@ == heredoc(prefix@, script@),
{
    proof {
        reveal_strlit("\\n");
        reveal_strlit("\\t");
        reveal_strlit("\\\"");
        reveal_strlit("\\'");
        reveal_strlit("\\\\");
    }
    let s = str_replace(script, "\\n", "\n");
    let s = str_replace(s.as_str(), "\\t", "\t");
    let s = str_replace(s.as_str(), "\\\"", "\"");
    let s = str_replace(s.as_str(), "\\'", "'");
    let s = str_replace(s.as_str(), "\\\\", "\\");
    let mut r = String::new();
    r.push_str(prefix);
    r.push_str("python3 << 'PYEOF'\n");
    r.push_str(s.as_str());
    r.push_str("\nPYEOF");
    r
}

/// The command with its inline Python script on standard input instead, where
/// it has one.
pub fn extract_inline_script(cmd: &str) -> (r: Option<String>)
    ensures
        message::opt_text(r) == (match inline_python(text::trim(cmd@)) {
            Some(p) => Some(heredoc(p.0, p.1)),
            None => None::<Seq<char>>,
        }),
{
    let trimmed = str_trim(cmd);
    match inline_python_parts(trimmed.as_str()) {
        Some((prefix, script)) => Some(heredoc_command(prefix.as_str(), script.as_str())),
        None => None,
    }
}

// ---------------------------------------------------------------------------
// Phases
// ---------------------------------------------------------------------------

/// The tools that produce something.
pub open spec fn produces(name: Seq<char>) -> bool {
    ||| name == "write_file"@
    ||| name == "edit_file"@
    ||| name == "send_file"@
    ||| name == "dispatch_subtasks"@
}

/// Whether the tool produces something; the first use of one ends exploration.
pub fn is_production_tool(name: &str) -> (r: bool)
    ensures
        r == produces(name@),
{
    str_eq(name, "write_file") || str_eq(name, "edit_file") || str_eq(name, "send_file") || str_eq(
        name,
        "dispatch_subtasks",
    )
}

/// Whether one of the tool calls of `m` is to a tool that produces something.
pub open spec fn is_production_round(m: MessageView) -> bool {
    m.is_tool_round() && exists|k: int|
        0 <= k < m.tool_calls->0.len() && call_produces(#[trigger] m.tool_calls->0[k])
}

/// Whether a tool call is to a tool that produces something.
pub open spec fn call_produces(c: ToolCallView) -> bool {
    c.name is Some && produces(c.name->0)
}

/// How many rounds with tool calls there are.
pub open spec fn rounds(ms: Seq<MessageView>) -> nat {
    seqs::count(ms, |m: MessageView| m.is_tool_round())
}

/// The index of the first round that produces something.
pub open spec fn first_production(ms: Seq<MessageView>) -> Option<int> {
    seqs::first_from(|i: int| is_production_round(ms[i]), 0, ms.len() as int)
}

/// The phase that a history is in: whether it explores, and how many rounds
/// it spent exploring and producing. The first round that produces something
/// is the first of the second phase.
pub open spec fn phase_of(ms: Seq<MessageView>) -> (bool, nat, nat) {
    match first_production(ms) {
        Some(i) => (false, rounds(ms.take(i)), rounds(ms.skip(i))),
        None => (true, rounds(ms), 0),
    }
}

fn round_produces(m: &Message) -> (r: bool)
    requires
        m@.is_tool_round(),
    ensures
        r == is_production_round(m@),
{
    match &m.tool_calls {
        Some(calls) => {
            let mut k: usize = 0;
            while k < calls.len()
                invariant
                    0 <= k <= calls@.len(),
                    m@.is_tool_round(),
                    m@.tool_calls == Some(message::calls_view(calls@)),
                    forall|j: int|
                        0 <= j < k ==> !call_produces(#[trigger] m@.tool_calls->0[j]),
                decreases calls@.len() - k,
            {
                proof {
                    assert(m@.tool_calls->0[k as int] == calls@[k as int]@);
                }
                if let Some(n) = &calls[k].name {
                    if is_production_tool(n.as_str()) {
                        return true;
                    }
                }
                k += 1;
            }
            false
        },
        None => false,
    }
}

proof fn lemma_rounds_split(ms: Seq<MessageView>, i: int)
    requires
        0 <= i <= ms.len(),
    ensures
        rounds(ms.take(i)) + rounds(ms.skip(i)) == rounds(ms),
    decreases ms.len() - i,
{
    let f = |m: MessageView| m.is_tool_round();
    if i == ms.len() {
        assert(ms.take(i) =~= ms);
        assert(ms.skip(i) =~= Seq::empty());
    } else {
        seqs::lemma_count_concat(ms.take(i), ms.skip(i), f);
        assert(ms.take(i) + ms.skip(i) =~= ms);
    }
}

/// The phase that a history is in: whether it explores, the rounds spent
/// exploring, the rounds spent producing, and all rounds.
pub fn infer_phase_from_messages(messages: &Vec<Message>) -> (r: (bool, usize, usize, usize))
    ensures
        (r.0, r.1 as nat, r.2 as nat) == phase_of(message::views(messages@)),
        r.3 == r.1 + r.2,
        r.3 == rounds(message::views(messages@)),
{
    let ghost ms = message::views(messages@);
    let ghost f = |m: MessageView| m.is_tool_round();
    let ghost g = |i: int| is_production_round(ms[i]);
    let mut exploring = true;
    let mut exploration: usize = 0;
    let mut production: usize = 0;
    let ghost mut turn: int = 0;
    let mut i: usize = 0;
    while i < messages.len()
        invariant
            0 <= i <= messages@.len(),
            ms == message::views(messages@),
            f == (|m: MessageView| m.is_tool_round()),
            g == (|i: int| is_production_round(ms[i])),
            exploring ==> production == 0 && exploration == seqs::count(ms.take(i as int), f)
                && forall|j: int| 0 <= j < i ==> !#[trigger] g(j),
            !exploring ==> 0 <= turn < i && g(turn) && (forall|j: int|
                0 <= j < turn ==> !#[trigger] g(j)) && exploration == seqs::count(ms.take(turn), f)
                && production == seqs::count(ms.subrange(turn, i as int), f),
            exploration + production <= i,
        decreases messages@.len() - i,
    {
        let m = &messages[i];
        proof {
            assert(ms.take(i + 1).drop_last() =~= ms.take(i as int));
            assert(ms.take(i + 1).last() == m@);
            if !exploring {
                assert(ms.subrange(turn, i + 1).drop_last() =~= ms.subrange(turn, i as int));
                assert(ms.subrange(turn, i + 1).last() == m@);
            }
            assert(g(i as int) == is_production_round(m@));
            let one = ms.subrange(i as int, i + 1);
            assert(one.drop_last() =~= Seq::empty());
            assert(one.last() == m@);
            assert(seqs::count(one.drop_last(), f) == 0);
        }
        if m.is_tool_round() {
            if exploring {
                if round_produces(m) {
                    exploring = false;
                    production = production + 1;
                    proof {
                        turn = i as int;
                    }
                } else {
                    exploration = exploration + 1;
                }
            } else {
                production = production + 1;
            }
        }
        i += 1;
    }
    proof {
        assert(ms.take(i as int) =~= ms);
        if exploring {
            seqs::lemma_first_skip(g, 0, i as int, i as int);
        } else {
            seqs::lemma_first_skip(g, 0, turn, i as int);
            assert(ms.subrange(turn, i as int) =~= ms.skip(turn));
            lemma_rounds_split(ms, turn);
        }
    }
    (exploring, exploration, production, exploration + production)
}

// ---------------------------------------------------------------------------
// The mark that resets the counters
// ---------------------------------------------------------------------------

/// Whether a message asks the next run to start its counters at zero.
pub open spec fn asks_reset(m: MessageView) -> bool {
    m.reset_iterations || carries_marker(m)
}

/// Whether an assistant text holds the mark of a run that reached its limit.
pub open spec fn carries_marker(m: MessageView) -> bool {
    &&& m.has_role("assistant"@)
    &&& m.text() is Some
    &&& text::contains(m.text()->0, MAX_REACHED_RESET_MARKER@)
}

/// A text without the mark.
pub open spec fn unmarked(t: Seq<char>) -> Seq<char> {
    text::trim(text::replace_all(t, MAX_REACHED_RESET_MARKER@, Seq::empty()))
}

/// What is left of a message once the mark is taken out; nothing where the
/// message was there for the mark alone.
pub open spec fn consumed(m: MessageView) -> Option<MessageView> {
    if m.reset_iterations {
        None
    } else if carries_marker(m) {
        if unmarked(m.text()->0).len() == 0 && !m.has_calls() {
            None
        } else {
            Some(m.with_text(unmarked(m.text()->0)))
        }
    } else {
        Some(m)
    }
}

/// The messages with the marks taken out.
pub open spec fn consumed_all(ms: Seq<MessageView>) -> Seq<MessageView>
    decreases ms.len(),
{
    if ms.len() == 0 {
        Seq::empty()
    } else {
        match consumed(ms.last()) {
            Some(m) => consumed_all(ms.drop_last()).push(m),
            None => consumed_all(ms.drop_last()),
        }
    }
}

/// Whether one of the messages asks for a reset.
pub open spec fn any_reset(ms: Seq<MessageView>) -> bool {
    exists|i: int| 0 <= i < ms.len() && asks_reset(#[trigger] ms[i])
}

/// Takes the marks that reset the counters out of the messages, and says
/// whether there was one.
pub fn take_reset_marker(messages: &mut Vec<Message>) -> (found: bool)
    ensures
        found == any_reset(message::views(old(messages)@)),
        message::views(final(messages)@) == consumed_all(message::views(old(messages)@)),
{
    let ghost ms = message::views(messages@);
    let mut found = false;
    let mut retained: Vec<Message> = Vec::new();
    let mut i: usize = 0;
    proof {
        assert(message::views(retained@) =~= consumed_all(ms.take(0)));
    }
    while i < messages.len()
        invariant
            0 <= i <= messages@.len(),
            ms == message::views(messages@),
            found == any_reset(ms.take(i as int)),
            message::views(retained@) == consumed_all(ms.take(i as int)),
        decreases messages@.len() - i,
    {
        let ghost t = ms.take(i + 1);
        let ghost before = retained@;
        let m = &messages[i];
        proof {
            assert(t.drop_last() =~= ms.take(i as int));
            assert(t.last() == m@);
            assert forall|k: int| 0 <= k < i implies #[trigger] t[k] == ms.take(i as int)[k] by {}
            if asks_reset(m@) {
                assert(asks_reset(t[i as int]));
            }
            if any_reset(ms.take(i as int)) {
                let k = choose|k: int| 0 <= k < i && asks_reset(#[trigger] ms.take(i as int)[k]);
                assert(asks_reset(t[k]));
            }
        }
        let mut copy = m.clone();
        let mut keep = true;
        if m.reset_iterations {
            found = true;
            keep = false;
        } else if m.has_role("assistant") {
            if let Some(content) = m.text() {
                if str_contains(content, MAX_REACHED_RESET_MARKER) {
                    found = true;
                    proof {
                        reveal_strlit("[[TYCLAW_MAX_REACHED_RESET_NEXT_RUN]]");
                        text::lemma_empty_literal();
                    }
                    let cut = str_replace(content, MAX_REACHED_RESET_MARKER, "");
                    let cleaned = str_trim(cut.as_str());
                    if cleaned.as_str().is_empty() && !m.has_calls() {
                        keep = false;
                    } else {
                        copy.content = Content::Text(cleaned);
                    }
                }
            }
        }
        if keep {
            retained.push(copy);
            proof {
                assert(message::views(retained@) =~= message::views(before).push(copy@));
            }
        }
        i += 1;
    }
    proof {
        assert(ms.take(i as int) =~= ms);
    }
    *messages = retained;
    found
}

/// Taking the marks out leaves none, where no text still holds the mark once
/// the mark is taken out of it: a second run finds nothing.
pub proof fn law_reset_marker_is_taken_once(ms: Seq<MessageView>)
    requires
        forall|i: int|
            0 <= i < ms.len() && carries_marker(#[trigger] ms[i]) ==> !text::contains(
                unmarked(ms[i].text()->0),
                MAX_REACHED_RESET_MARKER@,
            ),
    ensures
        !any_reset(consumed_all(ms)),
        consumed_all(consumed_all(ms)) == consumed_all(ms),
    decreases ms.len(),
{
    if ms.len() > 0 {
        let t = ms.drop_last();
        assert forall|i: int| 0 <= i < t.len() && carries_marker(
            #[trigger] t[i],
        ) implies !text::contains(unmarked(t[i].text()->0), MAX_REACHED_RESET_MARKER@) by {
            assert(ms[i] == t[i]);
        }
        law_reset_marker_is_taken_once(t);
        let r = consumed_all(ms);
        let u = consumed_all(t);
        if let Some(m) = consumed(ms.last()) {
            assert(carries_marker(ms[ms.len() - 1]) ==> !carries_marker(m));
            assert(r == u.push(m));
            assert(r.drop_last() =~= u);
            assert forall|i: int| 0 <= i < r.len() implies !asks_reset(#[trigger] r[i]) by {
                if i < u.len() {
                    assert(r[i] == u[i]);
                }
            }
        }
    }
}

// ---------------------------------------------------------------------------
// Shortening the system prompt
// ---------------------------------------------------------------------------

/// What stands between two sections of the system prompt.
pub const SECTION_BREAK: &'static str = "\n\n---\n\n";

/// The last section of a shortened system prompt.
pub open spec fn runtime_policy() -> Seq<char> {
    "# Runtime Policy\n- 先规划后执行，避免过度探索。\n- 工具调用失败先分析原因，不要盲目重试。\n- 任务完成时直接输出最终回复（不调用任何工具即表示结束）。\n"@
        + COMPACT_SYSTEM_MARKER@
}

/// The sections, trimmed, without those that are blank or begin with `a` or
/// with `b`.
pub open spec fn kept_sections(parts: Seq<Seq<char>>, a: Seq<char>, b: Seq<char>) -> Seq<Seq<char>>
    decreases parts.len(),
{
    if parts.len() == 0 {
        Seq::empty()
    } else {
        let rest = kept_sections(parts.drop_last(), a, b);
        let s = text::trim(parts.last());
        if s.len() == 0 || text::starts_with(s, a) || text::starts_with(s, b) {
            rest
        } else {
            rest.push(s)
        }
    }
}

/// The sections of `body` that are kept, and the policy behind them.
pub open spec fn compacted_body(body: Seq<char>, a: Seq<char>, b: Seq<char>) -> Seq<char> {
    text::join(
        kept_sections(text::split_str(body, SECTION_BREAK@), a, b).push(runtime_policy()),
        SECTION_BREAK@,
    )
}

/// A shortened system prompt: what stands up to the cache boundary stays as it
/// is; of the sections behind it the lists of abilities go. Without a boundary
/// the general guidelines go.
pub open spec fn compacted_system(raw: Seq<char>) -> Seq<char> {
    match text::find_from(raw, CACHE_BOUNDARY@, 0) {
        Some(i) => {
            let cut = i + CACHE_BOUNDARY@.len();
            raw.take(cut) + SECTION_BREAK@ + compacted_body(
                raw.skip(cut),
                "# Available Capabilities"@,
                "# Available Skills"@,
            )
        },
        None => compacted_body(raw, "## AGENTS"@, "## GUIDELINES"@),
    }
}

fn compact_body(body: &str, a: &str, b: &str) -> (r: String)
    ensures
        r@ == compacted_body(body@, a@, b@),
{
    proof {
        reveal_strlit("\n\n---\n\n");
    }
    let parts = str_split_str(body, SECTION_BREAK);
    let ghost pv = text::texts(parts@);
    let mut kept: Vec<String> = Vec::new();
    let mut i: usize = 0;
    proof {
        assert(text::texts(kept@) =~= kept_sections(pv.take(0), a@, b@));
    }
    while i < parts.len()
        invariant
            0 <= i <= parts@.len(),
            pv == text::texts(parts@),
            text::texts(kept@) == kept_sections(pv.take(i as int), a@, b@),
        decreases parts@.len() - i,
    {
        let ghost before = kept@;
        proof {
            let t = pv.take(i + 1);
            assert(t.drop_last() =~= pv.take(i as int));
            assert(t.last() == parts@[i as int]@);
        }
        let s = str_trim(parts[i].as_str());
        if !s.as_str().is_empty() && !str_starts_with(s.as_str(), a) && !str_starts_with(
            s.as_str(),
            b,
        ) {
            kept.push(s);
            proof {
                assert(text::texts(kept@) =~= text::texts(before).push(s@));
            }
        }
        i += 1;
    }
    proof {
        assert(pv.take(i as int) =~= pv);
    }
    let mut policy =
        "# Runtime Policy\n- 先规划后执行，避免过度探索。\n- 工具调用失败先分析原因，不要盲目重试。\n- 任务完成时直接输出最终回复（不调用任何工具即表示结束）。\n".to_owned();
    policy.push_str(COMPACT_SYSTEM_MARKER);
    let ghost before = kept@;
    kept.push(policy);
    proof {
        assert(text::texts(kept@) =~= text::texts(before).push(policy@));
    }
    str_join(&kept, SECTION_BREAK)
}

/// The shortened system prompt.
pub fn compact_system_prompt(raw: &str) -> (r: String)
    ensures
        r@ == compacted_system(raw@),
{
    let rc = chars_of(raw);
    let n: usize = rc.len();
    let bc = chars_of(CACHE_BOUNDARY);
    match text::find_at(rc.as_slice(), bc.as_slice(), 0) {
        Some(i) => {
            proof {
                text::lemma_find_from(raw@, CACHE_BOUNDARY@, 0);
            }
            let cut: usize = i + bc.len();
            let mut r = string_of(rc.as_slice(), 0, cut);
            let rest = string_of(rc.as_slice(), cut, n);
            proof {
                assert(r@ =~= raw@.take(cut as int));
                assert(rest@ =~= raw@.skip(cut as int));
            }
            let body = compact_body(rest.as_str(), "# Available Capabilities", "# Available Skills");
            r.push_str(SECTION_BREAK);
            r.push_str(body.as_str());
            r
        },
        None => compact_body(raw, "## AGENTS", "## GUIDELINES"),
    }
}

/// Shortening the system prompt does not touch what stands up to the cache
/// boundary.
pub proof fn law_compaction_keeps_static_prefix(raw: Seq<char>, i: int)
    requires
        text::find_from(raw, CACHE_BOUNDARY@, 0) == Some(i),
    ensures
        text::starts_with(compacted_system(raw), raw.take(i + CACHE_BOUNDARY@.len())),
{
    text::lemma_find_from(raw, CACHE_BOUNDARY@, 0);
    let p = raw.take(i + CACHE_BOUNDARY@.len());
    assert(compacted_system(raw).subrange(0, p.len() as int) =~= p);
}

proof fn lemma_contains_in_suffix(a: Seq<char>, b: Seq<char>, p: Seq<char>)
    requires
        text::contains(b, p),
    ensures
        text::contains(a + b, p),
{
    let i = choose|i: int| text::occurs_at(b, p, i);
    assert((a + b).subrange(a.len() + i, a.len() + i + p.len()) =~= b.subrange(i, i + p.len()));
    assert(text::occurs_at(a + b, p, a.len() + i));
}

proof fn lemma_body_is_marked(body: Seq<char>, a: Seq<char>, b: Seq<char>)
    ensures
        text::contains(compacted_body(body, a, b), COMPACT_SYSTEM_MARKER@),
{
    let k = kept_sections(text::split_str(body, SECTION_BREAK@), a, b);
    let parts = k.push(runtime_policy());
    let head =
        "# Runtime Policy\n- 先规划后执行，避免过度探索。\n- 工具调用失败先分析原因，不要盲目重试。\n- 任务完成时直接输出最终回复（不调用任何工具即表示结束）。\n"@;
    let m = COMPACT_SYSTEM_MARKER@;
    assert(m.subrange(0, m.len() as int) =~= m);
    assert(text::occurs_at(m, m, 0));
    lemma_contains_in_suffix(head, m, m);
    if k.len() > 0 {
        assert(parts.drop_last() =~= k);
        lemma_contains_in_suffix(
            text::join(k, SECTION_BREAK@) + SECTION_BREAK@,
            runtime_policy(),
            m,
        );
    }
}

/// A shortened system prompt carries the mark of one.
pub proof fn law_compacted_system_is_marked(raw: Seq<char>)
    ensures
        text::contains(compacted_system(raw), COMPACT_SYSTEM_MARKER@),
{
    match text::find_from(raw, CACHE_BOUNDARY@, 0) {
        Some(i) => {
            let cut = i + CACHE_BOUNDARY@.len();
            lemma_body_is_marked(
                raw.skip(cut),
                "# Available Capabilities"@,
                "# Available Skills"@,
            );
            lemma_contains_in_suffix(
                raw.take(cut) + SECTION_BREAK@,
                compacted_body(
                    raw.skip(cut),
                    "# Available Capabilities"@,
                    "# Available Skills"@,
                ),
                COMPACT_SYSTEM_MARKER@,
            );
        },
        None => {
            lemma_body_is_marked(raw, "## AGENTS"@, "## GUIDELINES"@);
        },
    }
}

/// Whether a message is a system message with a text.
pub open spec fn is_system_text(m: MessageView) -> bool {
    m.has_role("system"@) && m.text() is Some
}

/// The messages with the first system text shortened, unless it is already.
pub open spec fn system_compacted(ms: Seq<MessageView>) -> Seq<MessageView> {
    match seqs::first_from(|i: int| is_system_text(ms[i]), 0, ms.len() as int) {
        Some(i) => if text::contains(ms[i].text()->0, COMPACT_SYSTEM_MARKER@) {
            ms
        } else {
            ms.update(i, ms[i].with_text(compacted_system(ms[i].text()->0)))
        },
        None => ms,
    }
}

/// Shortens the first system text, once, and from the first round on.
pub fn maybe_compact_system_message(messages: &mut Vec<Message>, total_iterations: usize)
    ensures
        message::views(final(messages)@) == (if total_iterations <= EXTENDED_SYSTEM_ROUNDS {
            message::views(old(messages)@)
        } else {
            system_compacted(message::views(old(messages)@))
        }),
{
    if total_iterations <= EXTENDED_SYSTEM_ROUNDS {
        return;
    }
    let ghost ms = message::views(messages@);
    let ghost f = |i: int| is_system_text(ms[i]);
    let mut i: usize = 0;
    while i < messages.len()
        invariant
            0 <= i <= messages@.len(),
            ms == message::views(messages@),
            ms == message::views(old(messages)@),
            total_iterations > EXTENDED_SYSTEM_ROUNDS,
            f == (|i: int| is_system_text(ms[i])),
            forall|j: int| 0 <= j < i ==> !#[trigger] f(j),
        decreases messages@.len() - i,
    {
        proof {
            assert(f(i as int) == is_system_text(messages@[i as int]@));
        }
        if messages[i].has_role("system") {
            if let Some(content) = messages[i].text() {
                proof {
                    seqs::lemma_first_skip(f, 0, i as int, ms.len() as int);
                }
                if str_contains(content, COMPACT_SYSTEM_MARKER) {
                    return;
                }
                let compacted = compact_system_prompt(content);
                let mut m = messages[i].clone();
                m.content = Content::Text(compacted);
                messages.set(i, m);
                proof {
                    assert(message::views(messages@) =~= ms.update(
                        i as int,
                        ms[i as int].with_text(compacted@),
                    ));
                }
                return;
            }
        }
        i += 1;
    }
    proof {
        seqs::lemma_first_skip(f, 0, i as int, ms.len() as int);
    }
}

/// Shortening the system prompt a second time changes nothing.
pub proof fn law_system_compaction_idempotent(ms: Seq<MessageView>)
    ensures
        system_compacted(system_compacted(ms)) == system_compacted(ms),
{
    let f = |i: int| is_system_text(ms[i]);
    let n = ms.len() as int;
    seqs::lemma_first_from(f, 0, n);
    if let Some(i) = seqs::first_from(f, 0, n) {
        law_compacted_system_is_marked(ms[i].text()->0);
        let r = system_compacted(ms);
        let g = |i: int| is_system_text(r[i]);
        assert forall|j: int| 0 <= j < i implies !#[trigger] g(j) by {
            assert(!f(j));
        }
        assert(g(i));
        seqs::lemma_first_skip(g, 0, i, n);
    }
}

// ---------------------------------------------------------------------------
// Shortening assistant texts
// ---------------------------------------------------------------------------

/// The first `max_chars` characters.
pub fn truncate_by_chars_local(input: &str, max_chars: usize) -> (r: String)
    ensures
        r@ == text::take_chars(input@, max_chars as nat),
{
    str_take_chars(input, max_chars)
}

/// `a - b`, or zero.
pub open spec fn less(a: int, b: int) -> nat {
    if a >= b {
        (a - b) as nat
    } else {
        0
    }
}

/// The front and the end of a long text, with a note of what is left out.
pub open spec fn heavy(s: Seq<char>) -> Seq<char> {
    COMPACT_ASSISTANT_MARKER@ + "\n"@ + text::take_chars(s, ASSISTANT_TEXT_KEEP_PREFIX as nat)
        + "\n\n... [compacted, omitted "@ + text::dec(
        less(s.len() as int, ASSISTANT_TEXT_KEEP_PREFIX + ASSISTANT_TEXT_KEEP_SUFFIX),
    ) + " chars] ...\n\n"@ + s.skip(less(s.len() as int, ASSISTANT_TEXT_KEEP_SUFFIX as int) as int)
}

/// The front of a long text, with a note of what is left out.
pub open spec fn light(s: Seq<char>) -> Seq<char> {
    if s.len() <= ASSISTANT_TEXT_COMPACT_THRESHOLD {
        s
    } else {
        COMPACT_ASSISTANT_MARKER@ + "\n"@ + s.take(ASSISTANT_TEXT_COMPACT_THRESHOLD as int)
            + "\n... [light-compacted, omitted "@ + text::dec(
            (s.len() - ASSISTANT_TEXT_COMPACT_THRESHOLD) as nat,
        ) + " chars]"@
    }
}

/// The front and the end of a text, with a note of what is left out.
pub fn compact_assistant_heavy(content: &str) -> (r: String)
    ensures
        r@ == heavy(content@),
{
    let cs = chars_of(content);
    let total: usize = cs.len();
    let suffix_start: usize = if total >= ASSISTANT_TEXT_KEEP_SUFFIX {
        total - ASSISTANT_TEXT_KEEP_SUFFIX
    } else {
        0
    };
    let kept: usize = ASSISTANT_TEXT_KEEP_PREFIX + ASSISTANT_TEXT_KEEP_SUFFIX;
    let omitted: usize = if total >= kept {
        total - kept
    } else {
        0
    };
    let prefix = str_take_chars(content, ASSISTANT_TEXT_KEEP_PREFIX);
    let suffix = string_of(cs.as_slice(), suffix_start, total);
    proof {
        assert(suffix@ =~= content@.skip(suffix_start as int));
    }
    let n = decimal_usize(omitted);
    let mut r = String::new();
    r.push_str(COMPACT_ASSISTANT_MARKER);
    r.push_str("\n");
    r.push_str(prefix.as_str());
    r.push_str("\n\n... [compacted, omitted ");
    r.push_str(n.as_str());
    r.push_str(" chars] ...\n\n");
    r.push_str(suffix.as_str());
    r
}

/// The front of a text, with a note of what is left out.
pub fn compact_assistant_light(content: &str) -> (r: String)
    ensures
        r@ == light(content@),
{
    let cs = chars_of(content);
    let total: usize = cs.len();
    if total <= ASSISTANT_TEXT_COMPACT_THRESHOLD {
        return content.to_owned();
    }
    let truncated = string_of(cs.as_slice(), 0, ASSISTANT_TEXT_COMPACT_THRESHOLD);
    proof {
        assert(truncated@ =~= content@.take(ASSISTANT_TEXT_COMPACT_THRESHOLD as int));
    }
    let n = decimal_usize(total - ASSISTANT_TEXT_COMPACT_THRESHOLD);
    let mut r = String::new();
    r.push_str(COMPACT_ASSISTANT_MARKER);
    r.push_str("\n");
    r.push_str(truncated.as_str());
    r.push_str("\n... [light-compacted, omitted ");
    r.push_str(n.as_str());
    r.push_str(" chars]");
    r
}

/// Whether a message is a long assistant text that has not been shortened.
pub open spec fn is_long_text(m: MessageView) -> bool {
    &&& m.has_role("assistant"@)
    &&& !m.has_calls()
    &&& m.text_or_empty().len() > ASSISTANT_TEXT_COMPACT_THRESHOLD
    &&& !text::contains(m.text_or_empty(), COMPACT_ASSISTANT_MARKER@)
}

/// How many of the messages from index `i` on are long assistant texts.
pub open spec fn long_from(ms: Seq<MessageView>, i: int) -> nat
    decreases ms.len() - i,
{
    if i >= ms.len() {
        0
    } else {
        long_from(ms, i + 1) + (if is_long_text(ms[i]) {
            1nat
        } else {
            0
        })
    }
}

/// The message at index `i` with its text shortened where it is long: lightly
/// where few long texts follow it, else a lot.
pub open spec fn assistant_compacted_at(ms: Seq<MessageView>, i: int) -> MessageView {
    if !is_long_text(ms[i]) {
        ms[i]
    } else if long_from(ms, i + 1) < ASSISTANT_TEXT_LIGHT_KEEP {
        ms[i].with_text(light(ms[i].text_or_empty()))
    } else {
        ms[i].with_text(heavy(ms[i].text_or_empty()))
    }
}

/// The messages with long assistant texts shortened.
pub open spec fn assistant_compacted(ms: Seq<MessageView>) -> Seq<MessageView> {
    Seq::new(ms.len(), |i: int| assistant_compacted_at(ms, i))
}

fn is_long(m: &Message) -> (r: bool)
    ensures
        r == is_long_text(m@),
{
    if !m.has_role("assistant") || m.has_calls() {
        return false;
    }
    let content = m.text_or_empty();
    let cs = chars_of(content);
    cs.len() > ASSISTANT_TEXT_COMPACT_THRESHOLD && !str_contains(content, COMPACT_ASSISTANT_MARKER)
}

/// Shortens long assistant texts: the newest ones lightly, older ones to their
/// front and end. Messages with tool calls stay.
pub fn maybe_compact_assistant_history(messages: &mut Vec<Message>)
    ensures
        message::views(final(messages)@) == assistant_compacted(message::views(old(messages)@)),
{
    let ghost ms = message::views(messages@);
    let n: usize = messages.len();
    let mut i: usize = n;
    let mut seen: usize = 0;
    while i > 0
        invariant
            0 <= i <= n,
            n == messages@.len() == ms.len(),
            ms == message::views(old(messages)@),
            seen == long_from(ms, i as int),
            seen <= n - i,
            forall|k: int|
                i <= k < n ==> (#[trigger] messages@[k])@ == assistant_compacted_at(ms, k),
            forall|k: int| 0 <= k < i ==> (#[trigger] messages@[k])@ == ms[k],
        decreases i,
    {
        i -= 1;
        if is_long(&messages[i]) {
            let content = messages[i].text_or_empty();
            let compacted = if seen < ASSISTANT_TEXT_LIGHT_KEEP {
                compact_assistant_light(content)
            } else {
                compact_assistant_heavy(content)
            };
            let mut m = messages[i].clone();
            m.content = Content::Text(compacted);
            messages.set(i, m);
            seen = seen + 1;
        }
    }
    proof {
        assert(message::views(messages@) =~= assistant_compacted(ms));
    }
}

proof fn lemma_marked_at_front(rest: Seq<char>)
    ensures
        text::contains(COMPACT_ASSISTANT_MARKER@ + rest, COMPACT_ASSISTANT_MARKER@),
{
    let m = COMPACT_ASSISTANT_MARKER@;
    assert((m + rest).subrange(0, m.len() as int) =~= m);
    assert(text::occurs_at(m + rest, m, 0));
}

/// Shortening assistant texts a second time changes nothing.
pub proof fn law_assistant_compaction_idempotent(ms: Seq<MessageView>)
    ensures
        assistant_compacted(assistant_compacted(ms)) == assistant_compacted(ms),
{
    let r = assistant_compacted(ms);
    assert forall|i: int| 0 <= i < r.len() implies !is_long_text(#[trigger] r[i]) by {
        if is_long_text(ms[i]) {
            let s = ms[i].text_or_empty();
            let m = COMPACT_ASSISTANT_MARKER@;
            let lt = light(s);
            let hv = heavy(s);
            assert(lt =~= m + lt.skip(m.len() as int));
            assert(hv =~= m + hv.skip(m.len() as int));
            lemma_marked_at_front(lt.skip(m.len() as int));
            lemma_marked_at_front(hv.skip(m.len() as int));
        }
    }
    assert(assistant_compacted(r) =~= r);
}

// ---------------------------------------------------------------------------
// Repeated system messages
// ---------------------------------------------------------------------------

/// The messages without the system messages that repeat the one before them;
/// `last` is the text of a system message in front of the first.
pub open spec fn system_deduped(ms: Seq<MessageView>, last: Option<Seq<char>>) -> Seq<MessageView>
    decreases ms.len(),
{
    if ms.len() == 0 {
        Seq::empty()
    } else if ms[0].has_role("system"@) {
        if last == Some(ms[0].text_or_empty()) {
            system_deduped(ms.skip(1), last)
        } else {
            seq![ms[0]] + system_deduped(ms.skip(1), Some(ms[0].text_or_empty()))
        }
    } else {
        seq![ms[0]] + system_deduped(ms.skip(1), None)
    }
}

/// Takes out the system messages that repeat the one before them.
pub fn dedupe_consecutive_system_messages(messages: &mut Vec<Message>)
    ensures
        message::views(final(messages)@) == system_deduped(
            message::views(old(messages)@),
            None,
        ),
{
    let ghost ms = message::views(messages@);
    let mut deduped: Vec<Message> = Vec::new();
    let mut last: Option<String> = None;
    let mut i: usize = 0;
    proof {
        assert(ms.skip(0) =~= ms);
        assert(message::views(deduped@) + system_deduped(ms, None) =~= system_deduped(ms, None));
    }
    while i < messages.len()
        invariant
            0 <= i <= messages@.len(),
            ms == message::views(messages@),
            message::views(deduped@) + system_deduped(
                ms.skip(i as int),
                message::opt_text(last),
            ) == system_deduped(ms, None),
        decreases messages@.len() - i,
    {
        let ghost rest = ms.skip(i as int);
        let ghost before = deduped@;
        let m = &messages[i];
        proof {
            assert(rest.skip(1) =~= ms.skip(i + 1));
            assert(rest[0] == m@);
        }
        let mut keep = true;
        if m.has_role("system") {
            let content = m.text_or_empty();
            let same = match &last {
                Some(l) => str_eq(l.as_str(), content),
                None => false,
            };
            if same {
                keep = false;
            } else {
                last = Some(content.to_owned());
            }
        } else {
            last = None;
        }
        if keep {
            let c = m.clone();
            deduped.push(c);
            proof {
                assert(message::views(deduped@) =~= message::views(before).push(c@));
                let tail = system_deduped(ms.skip(i + 1), message::opt_text(last));
                assert(message::views(before) + (seq![c@] + tail) =~= message::views(deduped@)
                    + tail);
            }
        }
        i += 1;
    }
    proof {
        assert(message::views(deduped@) + system_deduped(
            ms.skip(i as int),
            message::opt_text(last),
        ) =~= message::views(deduped@));
    }
    *messages = deduped;
}

/// Taking out repeated system messages twice is taking them out once, and it
/// only leaves messages out.
pub proof fn law_system_dedupe_idempotent(ms: Seq<MessageView>, last: Option<Seq<char>>)
    ensures
        system_deduped(system_deduped(ms, last), last) == system_deduped(ms, last),
        seqs::is_subsequence(system_deduped(ms, last), ms),
    decreases ms.len(),
{
    if ms.len() > 0 {
        let t = ms.skip(1);
        if ms[0].has_role("system"@) && last == Some(ms[0].text_or_empty()) {
            law_system_dedupe_idempotent(t, last);
        } else {
            let next = if ms[0].has_role("system"@) {
                Some(ms[0].text_or_empty())
            } else {
                None
            };
            law_system_dedupe_idempotent(t, next);
            assert(system_deduped(ms, last).skip(1) =~= system_deduped(t, next));
        }
    }
}

// ---------------------------------------------------------------------------
// Signatures of tool calls
// ---------------------------------------------------------------------------

/// Arguments as pairs of name and JSON text.
pub open spec fn argument_texts(args: Seq<(Seq<char>, JsonView)>) -> Seq<(Seq<char>, Seq<char>)> {
    Seq::new(args.len(), |i: int| (args[i].0, json::json_text(args[i].1)))
}

/// Pairs written as `name=value`.
pub open spec fn assignments(pairs: Seq<(Seq<char>, Seq<char>)>) -> Seq<Seq<char>> {
    Seq::new(pairs.len(), |i: int| pairs[i].0 + "="@ + pairs[i].1)
}

/// Arguments in the order of their names, as `name=value` with `&` between.
pub open spec fn args_signature(args: Seq<(Seq<char>, JsonView)>) -> Seq<char> {
    text::join(assignments(order::sorted(argument_texts(args))), "&"@)
}

/// A text that is the same for the same arguments, in whatever order they come.
pub fn stable_args_signature(args: &Vec<(String, Json)>) -> (r: String)
    ensures
        r@ == args_signature(json::members_view(args@)),
{
    let ghost av = json::members_view(args@);
    let mut pairs: Vec<(String, String)> = Vec::new();
    let mut i: usize = 0;
    proof {
        json::lemma_members_view(args@);
        assert(order::keyed(pairs@) =~= argument_texts(av).take(0));
    }
    while i < args.len()
        invariant
            0 <= i <= args@.len(),
            av == json::members_view(args@),
            av.len() == args@.len(),
            forall|k: int|
                0 <= k < args@.len() ==> #[trigger] av[k] == (args@[k].0@, args@[k].1@),
            order::keyed(pairs@) == argument_texts(av).take(i as int),
        decreases args@.len() - i,
    {
        let ghost before = pairs@;
        let v = args[i].1.render();
        pairs.push((args[i].0.clone(), v));
        proof {
            assert(av[i as int] == (args@[i as int].0@, args@[i as int].1@));
            assert(order::keyed(pairs@) =~= order::keyed(before).push((args@[i as int].0@, v@)));
            assert(argument_texts(av).take(i + 1) =~= argument_texts(av).take(i as int).push(
                argument_texts(av)[i as int],
            ));
        }
        i += 1;
    }
    proof {
        assert(argument_texts(av).take(i as int) =~= argument_texts(av));
    }
    let ordered = sort_pairs(&pairs);
    let ghost ov = order::keyed(ordered@);
    let mut parts: Vec<String> = Vec::new();
    let mut k: usize = 0;
    proof {
        assert(text::texts(parts@) =~= assignments(ov).take(0));
    }
    while k < ordered.len()
        invariant
            0 <= k <= ordered@.len(),
            ov == order::keyed(ordered@),
            text::texts(parts@) == assignments(ov).take(k as int),
        decreases ordered@.len() - k,
    {
        let ghost before = parts@;
        let mut p = ordered[k].0.clone();
        p.push_str("=");
        p.push_str(ordered[k].1.as_str());
        parts.push(p);
        proof {
            assert(p@ =~= assignments(ov)[k as int]);
            assert(text::texts(parts@) =~= text::texts(before).push(p@));
            assert(assignments(ov).take(k + 1) =~= assignments(ov).take(k as int).push(
                assignments(ov)[k as int],
            ));
        }
        k += 1;
    }
    proof {
        assert(assignments(ov).take(k as int) =~= assignments(ov));
    }
    str_join(&parts, "&")
}

/// The order of the arguments does not matter, where no two have the same name.
pub proof fn law_args_signature_ignores_order(
    a: Seq<(Seq<char>, JsonView)>,
    b: Seq<(Seq<char>, JsonView)>,
)
    requires
        order::distinct_keys(a),
        a.to_multiset() == b.to_multiset(),
    ensures
        args_signature(a) == args_signature(b),
{
    let f = |x: (Seq<char>, JsonView)| (x.0, json::json_text(x.1));
    assert(argument_texts(a) =~= a.map_values(f));
    assert(argument_texts(b) =~= b.map_values(f));
    seqs::lemma_map_multiset(a, b, f);
    assert(order::distinct_keys(argument_texts(a)));
    order::law_sorted_ignores_order(argument_texts(a), argument_texts(b));
}

/// Tool calls, each as `name(arguments)`.
pub open spec fn call_signatures(calls: Seq<ToolCallRequest>) -> Seq<Seq<char>> {
    Seq::new(
        calls.len(),
        |i: int|
            calls[i].name@ + "("@ + args_signature(json::members_view(calls[i].arguments@)) + ")"@,
    )
}

/// A text that is the same for the same batch of tool calls.
pub fn tool_batch_signature(calls: &Vec<ToolCallRequest>) -> (r: String)
    ensures
        r@ == text::join(call_signatures(calls@), "||"@),
{
    let mut parts: Vec<String> = Vec::new();
    let mut i: usize = 0;
    proof {
        assert(text::texts(parts@) =~= call_signatures(calls@).take(0));
    }
    while i < calls.len()
        invariant
            0 <= i <= calls@.len(),
            text::texts(parts@) == call_signatures(calls@).take(i as int),
        decreases calls@.len() - i,
    {
        let ghost before = parts@;
        let args = stable_args_signature(&calls[i].arguments);
        let mut p = calls[i].name.clone();
        p.push_str("(");
        p.push_str(args.as_str());
        p.push_str(")");
        parts.push(p);
        proof {
            assert(p@ =~= call_signatures(calls@)[i as int]);
            assert(text::texts(parts@) =~= text::texts(before).push(p@));
            assert(call_signatures(calls@).take(i + 1) =~= call_signatures(calls@).take(
                i as int,
            ).push(call_signatures(calls@)[i as int]));
        }
        i += 1;
    }
    proof {
        assert(call_signatures(calls@).take(i as int) =~= call_signatures(calls@));
    }
    str_join(&parts, "||")
}

// ---------------------------------------------------------------------------
// Error envelopes
// ---------------------------------------------------------------------------

/// Whether a JSON value is an object whose `status` is `error`.
pub open spec fn is_error_json(v: Option<JsonView>) -> bool {
    v is Some && v->0.get_text("status"@) == Some("error"@)
}

/// Whether a parsed tool result is an object whose `status` is `error`.
pub fn is_error_value(v: &Option<Json>) -> (r: bool)
    ensures
        r == is_error_json(match *v {
            Some(j) => Some(j@),
            None => None,
        }),
{
    match v {
        Some(j) => match j.get_text("status") {
            Some(s) => str_eq(s, "error"),
            None => false,
        },
        None => false,
    }
}

/// Whether a tool result is the JSON text of an error.
pub fn is_error_envelope(result: &str) -> (r: bool)
    ensures
        r == is_error_json(json::parsed(result@)),
{
    let v = parse(result);
    is_error_value(&v)
}

// ---------------------------------------------------------------------------
// What is kept
// ---------------------------------------------------------------------------

/// What stands between the marks of thinking is cut out of a text, and the
/// rest stays; a text without such a mark stays whole.
pub proof fn law_thinking_is_cut_out(a: Seq<char>, t: Seq<char>, b: Seq<char>)
    requires
        ({
            let s = a + "<think>"@ + t + "</think>"@ + b;
            let n = a.len() + "<think>"@.len();
            &&& forall|i: int| 0 <= i < a.len() ==> !#[trigger] text::occurs_at(s, "<think>"@, i)
            &&& forall|i: int|
                n <= i < n + t.len() ==> !#[trigger] text::occurs_at(s, "</think>"@, i)
        }),
    ensures
        without_think(a + "<think>"@ + t + "</think>"@ + b) == a + without_think(b),
        !text::contains(b, "<think>"@) ==> without_think(b) == b,
{
    reveal_strlit("<think>");
    reveal_strlit("</think>");
    let s = a + "<think>"@ + t + "</think>"@ + b;
    let k = a.len() as int;
    let n = k + "<think>"@.len();
    let e = n + t.len();
    assert(s.subrange(k, n) =~= "<think>"@);
    assert(s.subrange(e, e + "</think>"@.len()) =~= "</think>"@);
    assert(text::occurs_at(s, "<think>"@, k));
    assert(text::occurs_at(s, "</think>"@, e));
    text::lemma_found_first(s, "<think>"@, 0, k);
    text::lemma_found_first(s, "</think>"@, n, e);
    assert(s.take(k) =~= a);
    assert(s.skip(e + "</think>"@.len()) =~= b);
    text::lemma_contains_find(b, "<think>"@);
}

/// The goal is the task of the last user message that holds one.
pub proof fn law_last_task_is_the_goal(ms: Seq<MessageView>, i: int, t: Seq<char>, goal: Seq<char>)
    requires
        0 <= i < ms.len(),
        ms[i].role == Some("user"@),
        ms[i].content == ContentView::Text(t),
        context::task_of(t) == Some(goal),
        text::trim(goal).len() > 0,
        forall|j: int| i < j < ms.len() ==> (#[trigger] ms[j]).role != Some("user"@),
    ensures
        goal_of(ms) == goal,
    decreases ms.len(),
{
    let p = ms.drop_last();
    if i < ms.len() - 1 {
        assert(ms[ms.len() - 1].role != Some("user"@));
        assert(p[i] == ms[i]);
        assert forall|j: int| i < j < p.len() implies (#[trigger] p[j]).role != Some("user"@) by {
            assert(p[j] == ms[j]);
        }
        law_last_task_is_the_goal(p, i, t, goal);
    }
}

/// A folded command holds every word of the command.
pub proof fn law_folded_command_keeps_its_words(cmd: Seq<char>, i: int)
    requires
        0 <= i < text::words(cmd).len(),
    ensures
        text::contains(folded(cmd), text::words(cmd)[i]),
{
    text::law_joined_text_holds_every_part(text::words(cmd), " "@, i);
}

/// A history with a call of a tool that produces something is past exploring,
/// and what it explored lies in front of that call.
pub proof fn law_first_product_ends_exploring(ms: Seq<MessageView>, i: int, k: int, name: Seq<char>)
    requires
        0 <= i < ms.len(),
        ms[i].role == Some("assistant"@),
        ms[i].tool_calls is Some,
        0 <= k < ms[i].tool_calls->0.len(),
        ms[i].tool_calls->0[k].name == Some(name),
        name == "write_file"@ || name == "edit_file"@ || name == "send_file"@ || name
            == "dispatch_subtasks"@,
    ensures
        !phase_of(ms).0,
        phase_of(ms).1 <= i,
        phase_of(ms).2 >= 1,
{
    let f = |i: int| is_production_round(ms[i]);
    let n = ms.len() as int;
    assert(call_produces(ms[i].tool_calls->0[k]));
    assert(f(i));
    seqs::lemma_first_from(f, 0, n);
    let q = first_production(ms)->0;
    let g = |m: MessageView| m.is_tool_round();
    seqs::lemma_count_bound(ms.take(q), g);
    let rest = ms.skip(q);
    assert(rest[0] == ms[q]);
    assert(rest =~= seq![ms[q]] + rest.skip(1));
    seqs::lemma_count_concat(seq![ms[q]], rest.skip(1), g);
    let one = seq![ms[q]];
    assert(one.drop_last() =~= Seq::empty());
    assert(one.last() == ms[q]);
    assert(f(q));
    assert(g(ms[q]));
    reveal_with_fuel(seqs::count, 2);
}

/// The rounds of a history are those of its two phases together, and every
/// message with a tool call adds one.
pub proof fn law_rounds_are_counted(ms: Seq<MessageView>, m: MessageView)
    ensures
        phase_of(ms).1 + phase_of(ms).2 == rounds(ms),
        rounds(ms.push(m)) == rounds(ms) + (if m.role == Some("assistant"@) && m.tool_calls is Some
            && m.tool_calls->0.len() > 0 {
            1nat
        } else {
            0
        }),
        rounds(Seq::empty()) == 0,
{
    let f = |i: int| is_production_round(ms[i]);
    seqs::lemma_first_from(f, 0, ms.len() as int);
    if let Some(i) = first_production(ms) {
        lemma_rounds_split(ms, i);
    }
    assert(ms.push(m).drop_last() =~= ms);
}

/// Messages without a mark stay as they are when the marks are taken out.
pub proof fn law_unmarked_messages_stay(ms: Seq<MessageView>)
    requires
        forall|i: int|
            0 <= i < ms.len() ==> !(#[trigger] ms[i]).reset_iterations && (
            ms[i].content matches ContentView::Text(t) ==> !text::contains(
                t,
                MAX_REACHED_RESET_MARKER@,
            )),
    ensures
        consumed_all(ms) == ms,
        !any_reset(ms),
    decreases ms.len(),
{
    if ms.len() > 0 {
        let p = ms.drop_last();
        assert forall|i: int| 0 <= i < p.len() implies !(#[trigger] p[i]).reset_iterations && (
        p[i].content matches ContentView::Text(t) ==> !text::contains(t, MAX_REACHED_RESET_MARKER@)) by {
            assert(p[i] == ms[i]);
        }
        law_unmarked_messages_stay(p);
        let l = ms[ms.len() - 1];
        assert(!l.reset_iterations);
        assert(p.push(l) =~= ms);
    }
}

/// A text in front of a mark stays when the mark is taken out, and the mark is
/// seen.
pub proof fn law_marked_text_keeps_its_front(m: MessageView, a: Seq<char>)
    requires
        m.role == Some("assistant"@),
        m.content == ContentView::Text(a + MAX_REACHED_RESET_MARKER@),
        !m.reset_iterations,
        text::trim(a).len() > 0,
        forall|i: int|
            0 <= i < a.len() ==> !#[trigger] text::occurs_at(
                a + MAX_REACHED_RESET_MARKER@,
                MAX_REACHED_RESET_MARKER@,
                i,
            ),
    ensures
        any_reset(seq![m]),
        consumed_all(seq![m]).len() == 1,
        consumed_all(seq![m])[0] == (MessageView {
            content: ContentView::Text(text::trim(a)),
            ..m
        }),
{
    reveal_strlit("[[TYCLAW_MAX_REACHED_RESET_NEXT_RUN]]");
    let mark = MAX_REACHED_RESET_MARKER@;
    let none = Seq::<char>::empty();
    let s = a + mark;
    assert(a + mark + none =~= s);
    text::law_parts_are_replaced(a, mark, none, none);
    assert(text::replace_all(none, mark, none) == none) by {
        text::lemma_find_from(none, mark, 0);
    }
    assert(a + none + none =~= a);
    assert(text::contains(s, mark)) by {
        text::lemma_contains_part(a, mark, none);
    }
    let one = seq![m];
    assert(asks_reset(one[0]));
    assert(one.drop_last() =~= Seq::empty());
    assert(one.last() == m);
    reveal_with_fuel(consumed_all, 2);
}

/// Every section of a prompt that is not blank and not of a kind that goes is
/// still there once the prompt is shortened.
pub proof fn law_other_sections_stay(body: Seq<char>, a: Seq<char>, b: Seq<char>, i: int)
    requires
        0 <= i < text::split_str(body, SECTION_BREAK@).len(),
        ({
            let s = text::trim(text::split_str(body, SECTION_BREAK@)[i]);
            s.len() > 0 && !text::starts_with(s, a) && !text::starts_with(s, b)
        }),
    ensures
        text::contains(
            compacted_body(body, a, b),
            text::trim(text::split_str(body, SECTION_BREAK@)[i]),
        ),
        text::contains(compacted_body(body, a, b), COMPACT_SYSTEM_MARKER@),
{
    let parts = text::split_str(body, SECTION_BREAK@);
    lemma_section_is_kept(parts, a, b, i);
    let kept = kept_sections(parts, a, b);
    let s = text::trim(parts[i]);
    let k = choose|k: int| 0 <= k < kept.len() && kept[k] == s;
    let all = kept.push(runtime_policy());
    assert(all[k] == s);
    text::law_joined_text_holds_every_part(all, SECTION_BREAK@, k);
    lemma_body_is_marked(body, a, b);
}

proof fn lemma_section_is_kept(parts: Seq<Seq<char>>, a: Seq<char>, b: Seq<char>, i: int)
    requires
        0 <= i < parts.len(),
        text::trim(parts[i]).len() > 0,
        !text::starts_with(text::trim(parts[i]), a),
        !text::starts_with(text::trim(parts[i]), b),
    ensures
        kept_sections(parts, a, b).contains(text::trim(parts[i])),
    decreases parts.len(),
{
    let p = parts.drop_last();
    let rest = kept_sections(p, a, b);
    let s = text::trim(parts[i]);
    if i < p.len() {
        assert(p[i] == parts[i]);
        lemma_section_is_kept(p, a, b, i);
        let k = choose|k: int| 0 <= k < rest.len() && rest[k] == s;
        assert(kept_sections(parts, a, b)[k] == s);
    } else {
        assert(kept_sections(parts, a, b)[rest.len() as int] == s);
    }
}

/// Shortening the history changes nothing but the texts of long answers, and
/// of those the front stays.
pub proof fn law_only_long_answers_are_shortened(ms: Seq<MessageView>, i: int)
    requires
        0 <= i < ms.len(),
    ensures
        assistant_compacted(ms).len() == ms.len(),
        assistant_compacted(ms)[i] == (MessageView {
            content: assistant_compacted(ms)[i].content,
            ..ms[i]
        }),
        ms[i].role != Some("assistant"@) || ms[i].tool_calls is Some ==> assistant_compacted(ms)[i]
            == ms[i],
        ms[i].content matches ContentView::Text(t) ==> {
            &&& t.len() <= ASSISTANT_TEXT_COMPACT_THRESHOLD ==> assistant_compacted(ms)[i] == ms[i]
            &&& assistant_compacted(ms)[i].content matches ContentView::Text(u) && (u == t
                || text::contains(u, t.take(ASSISTANT_TEXT_KEEP_PREFIX as int)))
        },
        !(ms[i].content is Text) ==> assistant_compacted(ms)[i] == ms[i],
{
    if let ContentView::Text(t) = ms[i].content {
        if is_long_text(ms[i]) {
            let front = t.take(ASSISTANT_TEXT_KEEP_PREFIX as int);
            let head = COMPACT_ASSISTANT_MARKER@ + "\n"@;
            let h = heavy(t);
            let l = light(t);
            assert(text::contains(h, front)) by {
                assert(text::take_chars(t, ASSISTANT_TEXT_KEEP_PREFIX as nat) =~= front);
                let b = h.skip((head.len() + front.len()) as int);
                assert(h =~= head + front + b);
                text::lemma_contains_part(head, front, b);
            }
            assert(text::contains(l, front)) by {
                let b = l.skip((head.len() + front.len()) as int);
                assert(l =~= head + front + b);
                text::lemma_contains_part(head, front, b);
            }
        }
    }
}

/// Whether a message is not a system message.
pub open spec fn of_others() -> spec_fn(MessageView) -> bool {
    |m: MessageView| m.role != Some("system"@)
}

/// Taking out repeated system messages leaves all other messages.
pub proof fn law_other_messages_stay(ms: Seq<MessageView>, last: Option<Seq<char>>)
    ensures
        seqs::select(system_deduped(ms, last), of_others()) == seqs::select(ms, of_others()),
    decreases ms.len(),
{
    if ms.len() > 0 {
        let rest = ms.skip(1);
        let next = if ms[0].role == Some("system"@) {
            Some(ms[0].text_or_empty())
        } else {
            None
        };
        law_other_messages_stay(rest, next);
        law_other_messages_stay(rest, last);
        let tail = system_deduped(rest, next);
        seqs::lemma_select_concat(seq![ms[0]], tail, of_others());
        seqs::lemma_select_concat(seq![ms[0]], rest, of_others());
        assert(seq![ms[0]] + rest =~= ms);
        if ms[0].role == Some("system"@) {
            let one = seq![ms[0]];
            assert(one.skip(1) =~= Seq::empty());
            assert(seqs::select(one, of_others()) =~= Seq::empty());
            assert(seqs::select(ms, of_others()) =~= seqs::select(rest, of_others()));
            assert(seqs::select(seq![ms[0]] + tail, of_others()) =~= seqs::select(
                tail,
                of_others(),
            ));
        }
    }
}

/// Every text of a system message is still there once repetitions are out.
pub proof fn law_every_system_text_stays(ms: Seq<MessageView>, last: Option<Seq<char>>, i: int)
    requires
        0 <= i < ms.len(),
        ms[i].role == Some("system"@),
        last != Some(ms[i].text_or_empty()),
    ensures
        exists|k: int|
            0 <= k < system_deduped(ms, last).len() && (#[trigger] system_deduped(ms, last)[k]).role
                == Some("system"@) && system_deduped(ms, last)[k].text_or_empty()
                == ms[i].text_or_empty(),
    decreases ms.len(),
{
    let d = system_deduped(ms, last);
    let t = ms[i].text_or_empty();
    if i == 0 {
        assert(d[0] == ms[0]);
    } else {
        let rest = ms.skip(1);
        assert(rest[i - 1] == ms[i]);
        if ms[0].role == Some("system"@) && last == Some(ms[0].text_or_empty()) {
            law_every_system_text_stays(rest, last, i - 1);
        } else if ms[0].role == Some("system"@) && ms[0].text_or_empty() == t {
            assert(d[0] == ms[0]);
        } else {
            let next = if ms[0].role == Some("system"@) {
                Some(ms[0].text_or_empty())
            } else {
                None
            };
            law_every_system_text_stays(rest, next, i - 1);
            let tail = system_deduped(rest, next);
            let k = choose|k: int|
                0 <= k < tail.len() && (#[trigger] tail[k]).role == Some("system"@)
                    && tail[k].text_or_empty() == t;
            assert(d[k + 1] == tail[k]);
        }
    }
}

/// The signature of a call tells each of its arguments, and that of a batch
/// tells each of its calls.
pub proof fn law_signature_tells_the_calls(
    args: Seq<(Seq<char>, JsonView)>,
    i: int,
    calls: Seq<ToolCallRequest>,
    k: int,
)
    requires
        0 <= i < args.len(),
        0 <= k < calls.len(),
    ensures
        text::contains(args_signature(args), args[i].0 + "="@ + json::json_text(args[i].1)),
        text::contains(
            text::join(call_signatures(calls), "||"@),
            calls[k].name@ + "("@ + args_signature(json::members_view(calls[k].arguments@)) + ")"@,
        ),
{
    broadcast use vstd::seq_lib::group_to_multiset_ensures;

    let at = argument_texts(args);
    let so = order::sorted(at);
    order::law_sorted(at);
    let x = at[i];
    assert(at.contains(x));
    assert(at.to_multiset().count(x) > 0);
    assert(so.contains(x));
    let j = choose|j: int| 0 <= j < so.len() && so[j] == x;
    let parts = assignments(so);
    assert(parts[j] == args[i].0 + "="@ + json::json_text(args[i].1));
    text::law_joined_text_holds_every_part(parts, "&"@, j);
    text::law_joined_text_holds_every_part(call_signatures(calls), "||"@, k);
}

proof fn lemma_quote_end(s: Seq<char>, i: int, e: int, q: char)
    requires
        0 <= i <= e < s.len(),
        s[e] == q,
        forall|k: int| i <= k < e ==> #[trigger] s[k] != q && s[k] != '\\',
    ensures
        quote_end(s, i, q) == Some(e),
    decreases e - i,
{
    if i < e {
        lemma_quote_end(s, i + 1, e, q);
    }
}

/// The script of a plain call of the interpreter is found, and what is fed to
/// the interpreter instead holds it as it is where nothing in it is escaped.
pub proof fn law_inline_script_is_found(script: Seq<char>)
    requires
        forall|k: int| 0 <= k < script.len() ==> #[trigger] script[k] != '\'' && script[k] != '\\',
    ensures
        inline_python("python3 -c '"@ + script + seq!['\'']) == Some((Seq::<char>::empty(), script)),
{
    reveal_strlit("python3 -c '");
    reveal_strlit("python3");
    reveal_strlit("-c");
    let c = "python3 -c '"@;
    let s = c + script + seq!['\''];
    let e = (c.len() + script.len()) as int;
    assert(s.subrange(0, 7) =~= "python3"@);
    assert(text::occurs_at(s, "python3"@, 0));
    assert(s.subrange(8, 10) =~= "-c"@);
    assert(text::occurs_at(s, "-c"@, 8));
    assert(s[7] == ' ' && s[8] == '-' && s[10] == ' ' && s[11] == '\'');
    reveal_with_fuel(white_end, 2);
    assert(white_end(s, 7) == 8);
    assert(white_end(s, 10) == 11);
    assert forall|k: int| 12 <= k < e implies #[trigger] s[k] != '\'' && s[k] != '\\' by {
        assert(s[k] == script[k - 12]);
    }
    lemma_quote_end(s, 12, e, '\'');
    assert(s.subrange(12, e) =~= script);
    assert(script_at(s, 0) == Some(script));
    let f = |p: int| calls_python(s, p);
    assert(f(0));
    assert(seqs::first_from(f, 0, s.len() as int) == Some(0int));
    assert(s.take(0) =~= Seq::<char>::empty());
}

/// A command that feeds a script to the interpreter begins with what stood in
/// front of the call, and holds a script without a backslash as it is.
pub proof fn law_script_is_fed_whole(prefix: Seq<char>, script: Seq<char>)
    requires
        forall|k: int| 0 <= k < script.len() ==> #[trigger] script[k] != '\\',
    ensures
        text::starts_with(heredoc(prefix, script), prefix),
        text::contains(heredoc(prefix, script), script),
{
    reveal_strlit("\\n");
    reveal_strlit("\\t");
    reveal_strlit("\\\"");
    reveal_strlit("\\'");
    reveal_strlit("\\\\");
    lemma_not_replaced(script, "\\n"@, "\n"@);
    lemma_not_replaced(script, "\\t"@, "\t"@);
    lemma_not_replaced(script, "\\\""@, "\""@);
    lemma_not_replaced(script, "\\'"@, "'"@);
    lemma_not_replaced(script, "\\\\"@, "\\"@);
    let h = heredoc(prefix, script);
    let a = prefix + "python3 << 'PYEOF'\n"@;
    assert(h == a + script + "\nPYEOF"@);
    text::lemma_contains_part(a, script, "\nPYEOF"@);
    assert(h.subrange(0, prefix.len() as int) =~= prefix);
}

proof fn lemma_not_replaced(s: Seq<char>, p: Seq<char>, by: Seq<char>)
    requires
        p.len() > 0,
        forall|k: int| 0 <= k < s.len() ==> #[trigger] s[k] != p[0],
    ensures
        text::replace_all(s, p, by) == s,
{
    text::lemma_find_from(s, p, 0);
    if let Some(i) = text::find_from(s, p, 0) {
        assert(s.subrange(i, i + p.len())[0] == s[i]);
    }
}

} // verus!
