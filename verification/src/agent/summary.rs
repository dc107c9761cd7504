//! What is reported when a run reaches its last iteration.

use crate::message;
use crate::message::{ContentView, Message, MessageView};
use crate::seqs;
use crate::text;
use crate::text::{
    chars_of, decimal_usize, fits_bytes, has_text, last_at, str_contains, str_ellipsis, str_eq,
    str_join, str_lines, str_trim, string_of,
};
use vstd::prelude::*;

verus! {

/// Whether the tool writes a file.
pub open spec fn writes(name: Seq<char>) -> bool {
    name == "write_file"@ || name == "edit_file"@
}

/// How many tools of a run wrote a file.
pub open spec fn write_count(tools: Seq<Seq<char>>) -> nat {
    seqs::count(tools, |t: Seq<char>| writes(t))
}

/// How many tools of a run were that one.
pub open spec fn tool_count(tools: Seq<Seq<char>>, name: Seq<char>) -> nat {
    seqs::count(tools, |t: Seq<char>| t == name)
}

/// How many tools of a run wrote a file.
pub fn count_writes(tools: &Vec<String>) -> (r: usize)
    ensures
        r == write_count(text::texts(tools@)),
{
    let ghost tv = text::texts(tools@);
    let ghost f = |t: Seq<char>| writes(t);
    let mut n: usize = 0;
    let mut i: usize = 0;
    while i < tools.len()
        invariant
            0 <= i <= tools@.len(),
            n <= i,
            tv == text::texts(tools@),
            f == (|t: Seq<char>| writes(t)),
            n == seqs::count(tv.take(i as int), f),
        decreases tools@.len() - i,
    {
        proof {
            assert(tv.take(i + 1).drop_last() =~= tv.take(i as int));
            assert(tv.take(i + 1).last() == tools@[i as int]@);
        }
        if str_eq(tools[i].as_str(), "write_file") || str_eq(tools[i].as_str(), "edit_file") {
            n += 1;
        }
        i += 1;
    }
    proof {
        assert(tv.take(i as int) =~= tv);
    }
    n
}

/// How many tools of a run were that one.
pub fn count_tool(tools: &Vec<String>, name: &str) -> (r: usize)
    ensures
        r == tool_count(text::texts(tools@), name@),
{
    let ghost tv = text::texts(tools@);
    let ghost f = |t: Seq<char>| t == name@;
    let mut n: usize = 0;
    let mut i: usize = 0;
    while i < tools.len()
        invariant
            0 <= i <= tools@.len(),
            n <= i,
            tv == text::texts(tools@),
            f == (|t: Seq<char>| t == name@),
            n == seqs::count(tv.take(i as int), f),
        decreases tools@.len() - i,
    {
        proof {
            assert(tv.take(i + 1).drop_last() =~= tv.take(i as int));
            assert(tv.take(i + 1).last() == tools@[i as int]@);
        }
        if str_eq(tools[i].as_str(), name) {
            n += 1;
        }
        i += 1;
    }
    proof {
        assert(tv.take(i as int) =~= tv);
    }
    n
}

/// Whether the name is that of a script that only looks at things.
pub open spec fn is_helper_script(name: Seq<char>) -> bool {
    ||| text::contains(name, "investigate"@)
    ||| text::contains(name, "compare"@)
    ||| text::contains(name, "verify"@)
    ||| text::contains(name, "check"@)
    ||| text::contains(name, "explore"@)
}

/// The name of the file that a tool result reports as written.
pub open spec fn written_file(m: MessageView) -> Option<Seq<char>> {
    match m.text() {
        Some(t) => if m.has_role("tool"@) && (text::contains(t, "Successfully wrote"@)
            || text::contains(t, "Successfully edited"@)) {
            match text::last_of(t, '/') {
                Some(k) => {
                    let name = t.skip(k + 1);
                    if is_helper_script(name) || text::trim(name).len() == 0 {
                        None
                    } else {
                        Some(text::trim(name))
                    }
                },
                None => None,
            }
        } else {
            None
        },
        None => None,
    }
}

/// The names of the files that were written, each once.
pub open spec fn written_files(ms: Seq<MessageView>) -> Seq<Seq<char>>
    decreases ms.len(),
{
    if ms.len() == 0 {
        Seq::empty()
    } else {
        let before = written_files(ms.drop_last());
        match written_file(ms.last()) {
            Some(name) => if before.contains(name) {
                before
            } else {
                before.push(name)
            },
            None => before,
        }
    }
}

/// What an assistant message says, on one line.
pub open spec fn action_of(m: MessageView) -> Option<Seq<char>> {
    match m.text() {
        Some(t) => if m.has_role("assistant"@) && text::byte_len(text::trim(t)) > 10 {
            Some(text::ellipsized(text::lines(text::trim(t))[0], 150))
        } else {
            None
        },
        None => None,
    }
}

/// What the last assistant messages say, at most `max` of them, in order.
pub open spec fn last_actions(ms: Seq<MessageView>, max: nat) -> Seq<Seq<char>>
    decreases ms.len(),
{
    if ms.len() == 0 || max == 0 {
        Seq::empty()
    } else {
        match action_of(ms.last()) {
            Some(a) => last_actions(ms.drop_last(), (max - 1) as nat).push(a),
            None => last_actions(ms.drop_last(), max),
        }
    }
}

/// The lines of a list.
pub open spec fn bullets(items: Seq<Seq<char>>) -> Seq<char>
    decreases items.len(),
{
    if items.len() == 0 {
        Seq::empty()
    } else {
        bullets(items.drop_last()) + "- "@ + items.last() + "\n"@
    }
}

/// What is said of a tool result: that it failed, or what it gave where that
/// is long enough.
pub open spec fn report_of(m: MessageView) -> Option<Seq<char>> {
    match m.text() {
        Some(t) => if !m.has_role("tool"@) {
            None
        } else if text::contains(t, "Error"@) || text::contains(t, "Traceback"@) {
            Some("\nLast error: "@ + text::ellipsized(t, 200) + "\n"@)
        } else if text::byte_len(t) > 20 {
            Some("\nLast tool output: "@ + text::ellipsized(t, 200) + "\n"@)
        } else {
            None
        },
        None => None,
    }
}

/// What is said of the last tool result that gives something to say.
pub open spec fn last_report(ms: Seq<MessageView>) -> Seq<char>
    decreases ms.len(),
{
    if ms.len() == 0 {
        Seq::empty()
    } else {
        match report_of(ms.last()) {
            Some(t) => t,
            None => last_report(ms.drop_last()),
        }
    }
}

/// What is said of the files that were written and the commands that ran.
pub open spec fn progress_part(tools: Seq<Seq<char>>) -> Seq<char> {
    let w = write_count(tools);
    let e = tool_count(tools, "exec"@);
    if w > 0 || e > 0 {
        "Progress: "@ + text::dec(w) + " file writes, "@ + text::dec(e) + " exec calls.\n"@
    } else {
        Seq::empty()
    }
}

/// What is said of the files that came into being.
pub open spec fn files_part(files: Seq<Seq<char>>) -> Seq<char> {
    if files.len() > 0 {
        "Files created: "@ + text::join(files, ", "@) + "\n"@
    } else {
        Seq::empty()
    }
}

/// What is said of what was done last.
pub open spec fn actions_part(actions: Seq<Seq<char>>) -> Seq<char> {
    if actions.len() > 0 {
        "\nLast actions before timeout:\n"@ + bullets(actions)
    } else {
        Seq::empty()
    }
}

/// The report of a run that reached its last iteration.
pub open spec fn max_summary(
    explored: nat,
    produced: nat,
    tools: Seq<Seq<char>>,
    ms: Seq<MessageView>,
) -> Seq<char> {
    "Reached max iterations (explore="@ + text::dec(explored) + ", produce="@ + text::dec(produced)
        + ").\n\n"@ + progress_part(tools) + files_part(written_files(ms)) + actions_part(
        last_actions(ms, 3),
    ) + last_report(ms)
}

fn file_written(m: &Message) -> (r: Option<String>)
    ensures
        message::opt_text(r) == written_file(m@),
{
    let t = match m.text() {
        Some(t) => t,
        None => {
            return None;
        },
    };
    if !m.has_role("tool") || !(str_contains(t, "Successfully wrote") || str_contains(
        t,
        "Successfully edited",
    )) {
        return None;
    }
    let cs = chars_of(t);
    let n: usize = cs.len();
    match last_at(cs.as_slice(), '/') {
        Some(k) => {
            let name = string_of(cs.as_slice(), k + 1, n);
            proof {
                assert(name@ =~= t@.skip(k + 1));
            }
            let s = name.as_str();
            if str_contains(s, "investigate") || str_contains(s, "compare") || str_contains(
                s,
                "verify",
            ) || str_contains(s, "check") || str_contains(s, "explore") {
                return None;
            }
            let clean = str_trim(s);
            if clean.as_str().is_empty() {
                None
            } else {
                Some(clean)
            }
        },
        None => None,
    }
}

fn files_written(messages: &Vec<Message>) -> (r: Vec<String>)
    ensures
        text::texts(r@) == written_files(message::views(messages@)),
{
    let ghost mv = message::views(messages@);
    let mut files: Vec<String> = Vec::new();
    let mut i: usize = 0;
    proof {
        assert(text::texts(files@) =~= written_files(mv.take(0)));
    }
    while i < messages.len()
        invariant
            0 <= i <= messages@.len(),
            mv == message::views(messages@),
            text::texts(files@) == written_files(mv.take(i as int)),
        decreases messages@.len() - i,
    {
        proof {
            assert(mv.take(i + 1).drop_last() =~= mv.take(i as int));
            assert(mv.take(i + 1).last() == messages@[i as int]@);
        }
        if let Some(name) = file_written(&messages[i]) {
            if !has_text(&files, name.as_str()) {
                let ghost before = files@;
                files.push(name);
                proof {
                    assert(text::texts(files@) =~= text::texts(before).push(name@));
                }
            }
        }
        i += 1;
    }
    proof {
        assert(mv.take(i as int) =~= mv);
    }
    files
}

proof fn lemma_lines_nonempty(s: Seq<char>)
    requires
        s.len() > 0,
    ensures
        text::lines(s).len() > 0,
{
    text::lemma_until(s, '\n');
}

fn describe_action(m: &Message) -> (r: Option<String>)
    ensures
        message::opt_text(r) == action_of(m@),
{
    let t = match m.text() {
        Some(t) => t,
        None => {
            return None;
        },
    };
    let trimmed = str_trim(t);
    if !m.has_role("assistant") || fits_bytes(trimmed.as_str(), 10) {
        return None;
    }
    let lines = str_lines(trimmed.as_str());
    proof {
        lemma_lines_nonempty(trimmed@);
        assert(text::texts(lines@)[0] == lines@[0]@);
    }
    Some(str_ellipsis(lines[0].as_str(), 150))
}

/// What the last assistant messages say, the last one first.
fn actions_backwards(messages: &Vec<Message>) -> (r: Vec<String>)
    ensures
        text::texts(r@).reverse() == last_actions(message::views(messages@), 3),
{
    let ghost mv = message::views(messages@);
    let mut out: Vec<String> = Vec::new();
    let mut i: usize = messages.len();
    proof {
        assert(mv.take(i as int) =~= mv);
        assert(last_actions(mv, 3) + text::texts(out@).reverse() =~= last_actions(mv, 3));
    }
    while i > 0 && out.len() < 3
        invariant
            0 <= i <= messages@.len(),
            mv == message::views(messages@),
            out@.len() <= 3,
            last_actions(mv, 3) == last_actions(mv.take(i as int), (3 - out@.len()) as nat)
                + text::texts(out@).reverse(),
        decreases i,
    {
        proof {
            assert(mv.take(i as int).drop_last() =~= mv.take(i - 1));
            assert(mv.take(i as int).last() == messages@[i - 1]@);
        }
        i -= 1;
        if let Some(a) = describe_action(&messages[i]) {
            let ghost before = out@;
            out.push(a);
            proof {
                assert(text::texts(out@) =~= text::texts(before).push(a@));
                let left = last_actions(mv.take(i as int), (3 - out@.len()) as nat);
                assert(left.push(a@) + text::texts(before).reverse() =~= left + text::texts(
                    out@,
                ).reverse());
            }
        }
    }
    proof {
        assert(last_actions(mv.take(i as int), (3 - out@.len()) as nat) =~= Seq::empty());
        assert(text::texts(out@).reverse() =~= last_actions(mv, 3));
    }
    out
}

fn describe_result(m: &Message) -> (r: Option<String>)
    ensures
        message::opt_text(r) == report_of(m@),
{
    let t = match m.text() {
        Some(t) => t,
        None => {
            return None;
        },
    };
    if !m.has_role("tool") {
        return None;
    }
    let mut out = if str_contains(t, "Error") || str_contains(t, "Traceback") {
        "\nLast error: ".to_owned()
    } else if !fits_bytes(t, 20) {
        "\nLast tool output: ".to_owned()
    } else {
        return None;
    };
    let preview = str_ellipsis(t, 200);
    out.push_str(preview.as_str());
    out.push_str("\n");
    Some(out)
}

fn last_result(messages: &Vec<Message>) -> (r: String)
    ensures
        r@ == last_report(message::views(messages@)),
{
    let ghost mv = message::views(messages@);
    let mut i: usize = messages.len();
    proof {
        assert(mv.take(i as int) =~= mv);
    }
    while i > 0
        invariant
            0 <= i <= messages@.len(),
            mv == message::views(messages@),
            last_report(mv) == last_report(mv.take(i as int)),
        decreases i,
    {
        proof {
            assert(mv.take(i as int).drop_last() =~= mv.take(i - 1));
            assert(mv.take(i as int).last() == messages@[i - 1]@);
        }
        i -= 1;
        if let Some(t) = describe_result(&messages[i]) {
            return t;
        }
    }
    String::new()
}

fn tell_progress(tools: &Vec<String>) -> (r: String)
    ensures
        r@ == progress_part(text::texts(tools@)),
{
    let write_n = count_writes(tools);
    let exec_n = count_tool(tools, "exec");
    if write_n == 0 && exec_n == 0 {
        proof {
            text::lemma_empty_literal();
        }
        return String::new();
    }
    let w = decimal_usize(write_n);
    let e = decimal_usize(exec_n);
    let mut out = "Progress: ".to_owned();
    out.push_str(w.as_str());
    out.push_str(" file writes, ");
    out.push_str(e.as_str());
    out.push_str(" exec calls.\n");
    out
}

fn tell_files(files: &Vec<String>) -> (r: String)
    ensures
        r@ == files_part(text::texts(files@)),
{
    if files.len() == 0 {
        proof {
            text::lemma_empty_literal();
        }
        return String::new();
    }
    let joined = str_join(files, ", ");
    let mut out = "Files created: ".to_owned();
    out.push_str(joined.as_str());
    out.push_str("\n");
    out
}

/// What is said of what was done last, given it from the end.
fn tell_actions(actions: &Vec<String>) -> (r: String)
    ensures
        r@ == actions_part(text::texts(actions@).reverse()),
{
    let ghost ordered = text::texts(actions@).reverse();
    if actions.len() == 0 {
        proof {
            text::lemma_empty_literal();
        }
        return String::new();
    }
    let mut out = "\nLast actions before timeout:\n".to_owned();
    let ghost head = out@;
    let mut i: usize = actions.len();
    proof {
        assert(ordered.take(0) =~= Seq::<Seq<char>>::empty());
        assert(head + bullets(ordered.take(0)) =~= head);
    }
    while i > 0
        invariant
            0 <= i <= actions@.len(),
            ordered == text::texts(actions@).reverse(),
            out@ == head + bullets(ordered.take(actions@.len() - i)),
        decreases i,
    {
        let ghost done = actions@.len() - i;
        i -= 1;
        out.push_str("- ");
        out.push_str(actions[i].as_str());
        out.push_str("\n");
        proof {
            assert(ordered.take(done + 1).drop_last() =~= ordered.take(done));
            assert(ordered.take(done + 1).last() == actions@[i as int]@);
            assert(out@ =~= head + bullets(ordered.take(done + 1)));
        }
    }
    proof {
        assert(ordered.take(actions@.len() as int) =~= ordered);
    }
    out
}

/// The report of a run that reached its last iteration: how far it came, which
/// files it wrote, what it did last and what the last tool result was.
pub fn build_max_iterations_summary(
    exploration_iterations: usize,
    production_iterations: usize,
    tools_used: &Vec<String>,
    messages: &Vec<Message>,
) -> (r: String)
    ensures
        r@ == max_summary(
            exploration_iterations as nat,
            production_iterations as nat,
            text::texts(tools_used@),
            message::views(messages@),
        ),
{
    let explored = decimal_usize(exploration_iterations);
    let produced = decimal_usize(production_iterations);
    let progress = tell_progress(tools_used);
    let files = files_written(messages);
    let told_files = tell_files(&files);
    let actions = actions_backwards(messages);
    let told_actions = tell_actions(&actions);
    let report = last_result(messages);
    let mut summary = "Reached max iterations (explore=".to_owned();
    summary.push_str(explored.as_str());
    summary.push_str(", produce=");
    summary.push_str(produced.as_str());
    summary.push_str(").\n\n");
    summary.push_str(progress.as_str());
    summary.push_str(told_files.as_str());
    summary.push_str(told_actions.as_str());
    summary.push_str(report.as_str());
    summary
}

/// A file that a tool result tells of is in the list of written files.
pub proof fn law_written_files_are_listed(
    ms: Seq<MessageView>,
    i: int,
    path: Seq<char>,
    name: Seq<char>,
)
    requires
        0 <= i < ms.len(),
        ms[i].role == Some("tool"@),
        ms[i].content == ContentView::Text(path + seq!['/'] + name),
        text::contains(path + seq!['/'] + name, "Successfully wrote"@) || text::contains(
            path + seq!['/'] + name,
            "Successfully edited"@,
        ),
        forall|k: int| 0 <= k < name.len() ==> #[trigger] name[k] != '/',
        text::trim(name).len() > 0,
        !text::contains(name, "investigate"@),
        !text::contains(name, "compare"@),
        !text::contains(name, "verify"@),
        !text::contains(name, "check"@),
        !text::contains(name, "explore"@),
    ensures
        written_files(ms).contains(text::trim(name)),
    decreases ms.len(),
{
    let p = ms.drop_last();
    let t = path + seq!['/'] + name;
    let before = written_files(p);
    if i < p.len() {
        assert(p[i] == ms[i]);
        law_written_files_are_listed(p, i, path, name);
        let k = choose|k: int| 0 <= k < before.len() && before[k] == text::trim(name);
        assert(written_files(ms)[k] == text::trim(name));
    } else {
        text::lemma_last_of(t, '/');
        let n = path.len() as int;
        assert(t[n] == '/');
        if let Some(k) = text::last_of(t, '/') {
            if k > n {
                assert(t[k] == name[k - n - 1]);
            }
            assert(k == n);
        }
        assert(t.skip(n + 1) =~= name);
        assert(written_file(ms.last()) == Some(text::trim(name)));
        if !before.contains(text::trim(name)) {
            assert(written_files(ms)[before.len() as int] == text::trim(name));
        }
    }
}

/// The report of a run that reached its last iteration tells how many rounds
/// it took, which files it wrote and what it did last.
pub proof fn law_report_tells_the_run(
    explored: nat,
    produced: nat,
    tools: Seq<Seq<char>>,
    ms: Seq<MessageView>,
    i: int,
    k: int,
)
    requires
        0 <= i < written_files(ms).len(),
        0 <= k < last_actions(ms, 3).len(),
    ensures
        ({
            let r = max_summary(explored, produced, tools, ms);
            &&& text::contains(r, text::dec(explored))
            &&& text::contains(r, text::dec(produced))
            &&& text::contains(r, written_files(ms)[i])
            &&& text::contains(r, last_actions(ms, 3)[k])
            &&& text::ends_with(r, last_report(ms))
        }),
{
    let r = max_summary(explored, produced, tools, ms);
    let a0 = "Reached max iterations (explore="@;
    assert(text::contains(r, text::dec(explored))) by {
        let d = text::dec(explored);
        let b = r.skip((a0.len() + d.len()) as int);
        assert(r =~= a0 + d + b);
        text::lemma_contains_part(a0, d, b);
    }
    let a1 = a0 + text::dec(explored) + ", produce="@;
    assert(text::contains(r, text::dec(produced))) by {
        let d = text::dec(produced);
        let b = r.skip((a1.len() + d.len()) as int);
        assert(r =~= a1 + d + b);
        text::lemma_contains_part(a1, d, b);
    }
    let files = files_part(written_files(ms));
    let acts = actions_part(last_actions(ms, 3));
    let a2 = a1 + text::dec(produced) + ").\n\n"@ + progress_part(tools);
    assert(text::contains(r, written_files(ms)[i])) by {
        assert(text::contains(r, files)) by {
            let b = acts + last_report(ms);
            assert(r =~= a2 + files + b);
            text::lemma_contains_part(a2, files, b);
        }
        assert(text::contains(files, text::join(written_files(ms), ", "@))) by {
            text::lemma_contains_part(
                "Files created: "@,
                text::join(written_files(ms), ", "@),
                "\n"@,
            );
        }
        text::law_joined_text_holds_every_part(written_files(ms), ", "@, i);
        text::lemma_contains_within(files, text::join(written_files(ms), ", "@), written_files(ms)[i]);
        text::lemma_contains_within(r, files, written_files(ms)[i]);
    }
    assert(text::contains(r, last_actions(ms, 3)[k])) by {
        let a3 = a2 + files;
        let list = bullets(last_actions(ms, 3));
        assert(text::contains(r, acts)) by {
            assert(r =~= a3 + acts + last_report(ms));
            text::lemma_contains_part(a3, acts, last_report(ms));
        }
        assert(text::contains(acts, list)) by {
            let head = "\nLast actions before timeout:\n"@;
            assert(acts =~= head + list + Seq::empty());
            text::lemma_contains_part(head, list, Seq::empty());
        }
        lemma_bullets(last_actions(ms, 3), k);
        text::lemma_contains_within(acts, list, last_actions(ms, 3)[k]);
        text::lemma_contains_within(r, acts, last_actions(ms, 3)[k]);
    }
    let l = last_report(ms);
    assert(r.subrange(r.len() - l.len(), r.len() as int) =~= l);
}

proof fn lemma_bullets(items: Seq<Seq<char>>, k: int)
    requires
        0 <= k < items.len(),
    ensures
        text::contains(bullets(items), items[k]),
    decreases items.len(),
{
    let p = items.drop_last();
    let front = bullets(p);
    if k < p.len() {
        assert(p[k] == items[k]);
        lemma_bullets(p, k);
        let tail = "- "@ + items.last() + "\n"@;
        let none = Seq::<char>::empty();
        assert(bullets(items) =~= none + front + tail);
        text::lemma_contains_part(none, front, tail);
        text::lemma_contains_within(bullets(items), front, items[k]);
    } else {
        text::lemma_contains_part(front + "- "@, items[k], "\n"@);
    }
}

/// The newest answer that says something is the last of the actions, and the
/// newest tool result that says something is the one that is reported.
pub proof fn law_newest_comes_last(ms: Seq<MessageView>, max: nat, t: Seq<char>)
    requires
        max > 0,
        ms.len() > 0,
        ms.last().content == ContentView::Text(t),
    ensures
        ms.last().role == Some("assistant"@) && text::byte_len(text::trim(t)) > 10 ==> {
            &&& last_actions(ms, max).len() > 0
            &&& last_actions(ms, max).last() == text::ellipsized(
                text::lines(text::trim(t))[0],
                150,
            )
            &&& last_report(ms) == last_report(ms.drop_last())
        },
        ms.last().role == Some("tool"@) && text::byte_len(t) > 20 ==> {
            &&& text::contains(last_report(ms), text::ellipsized(t, 200))
            &&& last_actions(ms, max) == last_actions(ms.drop_last(), max)
        },
        last_actions(ms, max).len() <= max,
{
    reveal_strlit("assistant");
    reveal_strlit("tool");
    assert("assistant"@.len() != "tool"@.len());
    lemma_few_actions(ms, max);
    let e = text::ellipsized(t, 200);
    assert(text::contains("\nLast error: "@ + e + "\n"@, e)) by {
        text::lemma_contains_part("\nLast error: "@, e, "\n"@);
    }
    assert(text::contains("\nLast tool output: "@ + e + "\n"@, e)) by {
        text::lemma_contains_part("\nLast tool output: "@, e, "\n"@);
    }
}

proof fn lemma_few_actions(ms: Seq<MessageView>, max: nat)
    ensures
        last_actions(ms, max).len() <= max,
    decreases ms.len(),
{
    if ms.len() > 0 && max > 0 {
        lemma_few_actions(ms.drop_last(), (max - 1) as nat);
        lemma_few_actions(ms.drop_last(), max);
    }
}

/// Every tool that writes a file counts as one write, and every other tool as
/// none.
pub proof fn law_writes_are_counted(tools: Seq<Seq<char>>, t: Seq<char>, name: Seq<char>)
    ensures
        write_count(tools.push(t)) == write_count(tools) + (if t == "write_file"@ || t
            == "edit_file"@ {
            1nat
        } else {
            0
        }),
        tool_count(tools.push(t), name) == tool_count(tools, name) + (if t == name {
            1nat
        } else {
            0
        }),
        write_count(Seq::empty()) == 0,
        tool_count(Seq::empty(), name) == 0,
{
    assert(tools.push(t).drop_last() =~= tools);
}

} // verus!
