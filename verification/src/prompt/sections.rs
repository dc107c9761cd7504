//! The sections of a prompt.

use crate::message;
use crate::order;
use crate::order::sort_pairs;
use crate::prompt::prompt_store::{try_get, PromptStore};
use crate::seqs;
use crate::table::TextTable;
use crate::text;
use crate::text::{
    chars_of, decimal_usize, eq_but_case, has_text, last_at, str_eq, str_join, str_lines,
    str_starts_with, str_strip_ends, str_take_chars, str_trim, string_of,
};
use vstd::prelude::*;

verus! {

// ---------------------------------------------------------------------------
// Skills
// ---------------------------------------------------------------------------

/// A skill that the agent can be told of.
#[derive(Debug)]
pub struct SkillContent {
    pub name: String,
    pub description: String,
    pub content: String,
    pub category: String,
    pub triggers: Vec<String>,
    pub tool_path: Option<String>,
    pub risk_level: String,
    pub requires_capabilities: Vec<String>,
    /// Whether a trigger of the skill was met.
    pub matched: bool,
}

/// The first characters of a text, with dots where it was cut.
pub open spec fn shortened(s: Seq<char>, max: nat) -> Seq<char> {
    if s.len() > max {
        text::take_chars(s, max) + "..."@
    } else {
        s
    }
}

/// The first characters of a text, with dots where it was cut.
pub fn shorten(s: &str, max: usize) -> (r: String)
    ensures
        r@ == shortened(s@, max as nat),
{
    let cs = chars_of(s);
    if cs.len() > max {
        let mut r = str_take_chars(s, max);
        r.push_str("...");
        r
    } else {
        s.to_owned()
    }
}

/// The first line of a skill that says something: not blank, not a heading,
/// and not in the front matter, which stands between the first two lines
/// `---`. `seen` says whether the front matter was met, `inside` whether it is
/// still open.
pub open spec fn first_statement(lines: Seq<Seq<char>>, seen: bool, inside: bool) -> Option<Seq<char>>
    decreases lines.len(),
{
    if lines.len() == 0 {
        None
    } else {
        let t = text::trim(lines[0]);
        let rest = lines.skip(1);
        if t.len() == 0 {
            first_statement(rest, seen, inside)
        } else if t == "---"@ && !seen {
            first_statement(rest, true, true)
        } else if t == "---"@ && inside {
            first_statement(rest, true, false)
        } else if inside || text::starts_with(t, "#"@) {
            first_statement(rest, seen, inside)
        } else {
            Some(t)
        }
    }
}

/// What is said of a skill: its description, else the first statement of its
/// text.
pub open spec fn skill_summary(description: Seq<char>, content: Seq<char>) -> Seq<char> {
    let d = text::trim(description);
    if d.len() > 0 {
        shortened(d, 80)
    } else {
        match first_statement(text::lines(content), false, false) {
            Some(t) => shortened(t, 80),
            None => Seq::empty(),
        }
    }
}

/// What is said of a skill.
pub fn summarize_skill_description(description: &str, content: &str) -> (r: String)
    ensures
        r@ == skill_summary(description@, content@),
{
    let desc = str_trim(description);
    if !desc.as_str().is_empty() {
        return shorten(desc.as_str(), 80);
    }
    let lines = str_lines(content);
    let ghost all = text::texts(lines@);
    let mut seen = false;
    let mut inside = false;
    let mut i: usize = 0;
    proof {
        assert(all.skip(0) =~= all);
    }
    while i < lines.len()
        invariant
            0 <= i <= lines@.len(),
            all == text::texts(lines@),
            text::trim(description@).len() == 0,
            all == text::lines(content@),
            first_statement(all, false, false) == first_statement(
                all.skip(i as int),
                seen,
                inside,
            ),
        decreases lines@.len() - i,
    {
        proof {
            assert(all.skip(i as int)[0] == lines@[i as int]@);
            assert(all.skip(i as int).skip(1) =~= all.skip(i + 1));
        }
        let trimmed = str_trim(lines[i].as_str());
        let t = trimmed.as_str();
        i += 1;
        if t.is_empty() {
            continue ;
        }
        if str_eq(t, "---") {
            if !seen {
                seen = true;
                inside = true;
                continue ;
            }
            if inside {
                inside = false;
                continue ;
            }
        }
        if inside || str_starts_with(t, "#") {
            continue ;
        }
        return shorten(t, 80);
    }
    String::new()
}

/// What `Path::parent` gives of a path, as text.
pub uninterp spec fn parent_path(path: Seq<char>) -> Option<Seq<char>>;

/// `Path::parent` of std: the path without its last component, where there is
/// one. The contract names the result and says no more of it.
#[verifier::external_body]
pub(crate) fn parent_of(path: &str) -> (r: Option<String>)
    ensures
        message::opt_text(r) == parent_path(path@),
{
    std::path::Path::new(path).parent().map(|p| p.display().to_string())
}

/// Where the text of a skill is to be found, given the directory of its tool.
pub open spec fn skill_place(tool_path: Option<Seq<char>>) -> Seq<char> {
    match tool_path {
        Some(p) => " → `"@ + (match parent_path(p) {
            Some(d) => d,
            None => "."@,
        }) + "/SKILL.md`"@,
        None => Seq::empty(),
    }
}

/// One line on a skill.
pub open spec fn skill_line(s: SkillContent) -> Seq<char> {
    "- **"@ + s.name@ + "**: "@ + skill_summary(s.description@, s.content@) + skill_place(
        message::opt_text(s.tool_path),
    )
}

/// The lines on the skills.
pub open spec fn skill_lines(skills: Seq<SkillContent>) -> Seq<Seq<char>> {
    Seq::new(skills.len(), |i: int| skill_line(skills[i]))
}

/// What stands in front of the list of the skills; nothing where no text is
/// given for it.
pub open spec fn skills_intro(store: PromptStore) -> Seq<char> {
    match store.top("skills_intro"@) {
        Some(t) => t,
        None => Seq::empty(),
    }
}

/// The section on the skills.
pub open spec fn skills_section(intro: Seq<char>, skills: Seq<SkillContent>) -> Seq<char> {
    if skills.len() == 0 {
        Seq::empty()
    } else {
        "# Available Skills\n\n"@ + intro + "\n\n"@ + text::join(skill_lines(skills), "\n"@)
    }
}

/// The hint where the text of a skill is, given the directory of its tool.
pub fn skill_hint(dir: &str) -> (r: String)
    ensures
        r@ == " → `"@ + dir@ + "/SKILL.md`"@,
{
    let mut r = " → `".to_owned();
    r.push_str(dir);
    r.push_str("/SKILL.md`");
    r
}

fn describe_skill(s: &SkillContent) -> (r: String)
    ensures
        r@ == skill_line(*s),
{
    let mut r = "- **".to_owned();
    r.push_str(s.name.as_str());
    r.push_str("**: ");
    let summary = summarize_skill_description(s.description.as_str(), s.content.as_str());
    r.push_str(summary.as_str());
    let place = match &s.tool_path {
        Some(p) => match parent_of(p.as_str()) {
            Some(d) => skill_hint(d.as_str()),
            None => skill_hint("."),
        },
        None => String::new(),
    };
    r.push_str(place.as_str());
    r
}

/// The section on the skills; empty where there are none.
pub fn build_section_skills(store: &PromptStore, skills: &Vec<SkillContent>) -> (r: String)
    ensures
        r@ == skills_section(skills_intro(*store), skills@),
{
    if skills.len() == 0 {
        return String::new();
    }
    let mut lines: Vec<String> = Vec::new();
    let mut i: usize = 0;
    while i < skills.len()
        invariant
            0 <= i <= skills@.len(),
            lines@.len() == i,
            forall|k: int| 0 <= k < i ==> (#[trigger] lines@[k])@ == skill_line(skills@[k]),
        decreases skills@.len() - i,
    {
        lines.push(describe_skill(&skills[i]));
        i += 1;
    }
    proof {
        assert(text::texts(lines@) =~= skill_lines(skills@));
    }
    let intro = match try_get(store, "skills_intro") {
        Some(t) => t,
        None => String::new(),
    };
    let joined = str_join(&lines, "\n");
    let mut r = "# Available Skills\n\n".to_owned();
    r.push_str(intro.as_str());
    r.push_str("\n\n");
    r.push_str(joined.as_str());
    r
}

// ---------------------------------------------------------------------------
// Capabilities
// ---------------------------------------------------------------------------

/// What a table holds under a key, else the other text.
pub open spec fn entry_or(t: Map<Seq<char>, Seq<char>>, key: Seq<char>, other: Seq<char>) -> Seq<char> {
    if t.contains_key(key) {
        t[key]
    } else {
        other
    }
}

fn entry_or_else<'a>(t: &'a TextTable, key: &str, other: &'a str) -> (r: &'a str)
    ensures
        r@ == entry_or(t@, key@, other@),
{
    match t.get(key) {
        Some(v) => v,
        None => other,
    }
}

/// The category of a capability.
pub open spec fn category_of(c: TextTable) -> Seq<char> {
    entry_or(c@, "category"@, "other"@)
}

/// The name of a capability.
pub open spec fn name_of(c: TextTable) -> Seq<char> {
    entry_or(c@, "name"@, "?"@)
}

/// The names of the capabilities of one category, in order.
pub open spec fn names_in(caps: Seq<TextTable>, category: Seq<char>) -> Seq<Seq<char>>
    decreases caps.len(),
{
    if caps.len() == 0 {
        Seq::empty()
    } else {
        let before = names_in(caps.drop_last(), category);
        if category_of(caps.last()) == category {
            before.push(name_of(caps.last()))
        } else {
            before
        }
    }
}

/// The categories, each once, in the order in which they come.
pub open spec fn categories(caps: Seq<TextTable>) -> Seq<Seq<char>>
    decreases caps.len(),
{
    if caps.len() == 0 {
        Seq::empty()
    } else {
        let before = categories(caps.drop_last());
        let c = category_of(caps.last());
        if before.contains(c) {
            before
        } else {
            before.push(c)
        }
    }
}

/// One line on a category.
pub open spec fn category_line(caps: Seq<TextTable>, category: Seq<char>) -> Seq<char> {
    "- **"@ + category + "**: "@ + text::join(names_in(caps, category), "、"@) + " ("@ + text::dec(
        names_in(caps, category).len(),
    ) + "个)"@
}

/// The categories, each with its line.
pub open spec fn category_pairs(caps: Seq<TextTable>) -> Seq<(Seq<char>, Seq<char>)> {
    Seq::new(
        categories(caps).len(),
        |i: int| (categories(caps)[i], category_line(caps, categories(caps)[i])),
    )
}

/// The second parts of pairs.
pub open spec fn seconds(s: Seq<(Seq<char>, Seq<char>)>) -> Seq<Seq<char>> {
    Seq::new(s.len(), |i: int| s[i].1)
}

/// The section on the capabilities: a line for each category, in the order of
/// the categories.
pub open spec fn capabilities_section(caps: Seq<TextTable>) -> Seq<char> {
    if caps.len() == 0 {
        Seq::empty()
    } else {
        "# Available Capabilities ("@ + text::dec(caps.len()) + " total)\n\n"@ + text::join(
            seconds(order::sorted(category_pairs(caps))),
            "\n"@,
        )
    }
}

fn category_names(caps: &Vec<TextTable>, category: &str) -> (r: Vec<String>)
    ensures
        text::texts(r@) == names_in(caps@, category@),
{
    let mut out: Vec<String> = Vec::new();
    let mut i: usize = 0;
    proof {
        assert(text::texts(out@) =~= names_in(caps@.take(0), category@));
    }
    while i < caps.len()
        invariant
            0 <= i <= caps@.len(),
            text::texts(out@) == names_in(caps@.take(i as int), category@),
        decreases caps@.len() - i,
    {
        proof {
            assert(caps@.take(i + 1).drop_last() =~= caps@.take(i as int));
            assert(caps@.take(i + 1).last() == caps@[i as int]);
        }
        if str_eq(entry_or_else(&caps[i], "category", "other"), category) {
            let ghost before = out@;
            let name = entry_or_else(&caps[i], "name", "?").to_owned();
            out.push(name);
            proof {
                assert(text::texts(out@) =~= text::texts(before).push(name@));
            }
        }
        i += 1;
    }
    proof {
        assert(caps@.take(i as int) =~= caps@);
    }
    out
}

/// The section on the capabilities; empty where there are none.
pub fn build_section_capabilities(caps: &Vec<TextTable>) -> (r: String)
    ensures
        r@ == capabilities_section(caps@),
{
    if caps.len() == 0 {
        return String::new();
    }
    let mut cats: Vec<String> = Vec::new();
    let mut i: usize = 0;
    proof {
        assert(text::texts(cats@) =~= categories(caps@.take(0)));
    }
    while i < caps.len()
        invariant
            0 <= i <= caps@.len(),
            text::texts(cats@) == categories(caps@.take(i as int)),
        decreases caps@.len() - i,
    {
        proof {
            assert(caps@.take(i + 1).drop_last() =~= caps@.take(i as int));
            assert(caps@.take(i + 1).last() == caps@[i as int]);
        }
        let c = entry_or_else(&caps[i], "category", "other");
        if !has_text(&cats, c) {
            let ghost before = cats@;
            let owned = c.to_owned();
            cats.push(owned);
            proof {
                assert(text::texts(cats@) =~= text::texts(before).push(owned@));
            }
        }
        i += 1;
    }
    proof {
        assert(caps@.take(i as int) =~= caps@);
    }
    let mut pairs: Vec<(String, String)> = Vec::new();
    let mut j: usize = 0;
    while j < cats.len()
        invariant
            0 <= j <= cats@.len(),
            text::texts(cats@) == categories(caps@),
            pairs@.len() == j,
            forall|k: int|
                0 <= k < j ==> (#[trigger] pairs@[k]).0@ == cats@[k]@ && pairs@[k].1@
                    == category_line(caps@, cats@[k]@),
        decreases cats@.len() - j,
    {
        let names = category_names(caps, cats[j].as_str());
        let joined = str_join(&names, "、");
        let n = decimal_usize(names.len());
        let mut line = "- **".to_owned();
        line.push_str(cats[j].as_str());
        line.push_str("**: ");
        line.push_str(joined.as_str());
        line.push_str(" (");
        line.push_str(n.as_str());
        line.push_str("个)");
        proof {
            assert(text::texts(names@).len() == names@.len());
        }
        pairs.push((cats[j].clone(), line));
        j += 1;
    }
    proof {
        assert(order::keyed(pairs@) =~= category_pairs(caps@)) by {
            assert forall|k: int| 0 <= k < pairs@.len() implies #[trigger] order::keyed(pairs@)[k]
                == category_pairs(caps@)[k] by {
                assert(pairs@[k].0@ == cats@[k]@);
                assert(text::texts(cats@)[k] == cats@[k]@);
            }
        }
    }
    let ordered = sort_pairs(&pairs);
    let lines = second_texts(&ordered);
    let joined = str_join(&lines, "\n");
    let total = decimal_usize(caps.len());
    let mut r = "# Available Capabilities (".to_owned();
    r.push_str(total.as_str());
    r.push_str(" total)\n\n");
    r.push_str(joined.as_str());
    r
}

fn second_texts(v: &Vec<(String, String)>) -> (r: Vec<String>)
    ensures
        text::texts(r@) == seconds(order::keyed(v@)),
{
    let mut out: Vec<String> = Vec::new();
    let mut i: usize = 0;
    while i < v.len()
        invariant
            0 <= i <= v@.len(),
            out@.len() == i,
            forall|k: int| 0 <= k < i ==> (#[trigger] out@[k])@ == v@[k].1@,
        decreases v@.len() - i,
    {
        out.push(v[i].1.clone());
        i += 1;
    }
    proof {
        assert(text::texts(out@) =~= seconds(order::keyed(v@)));
    }
    out
}

// ---------------------------------------------------------------------------
// Identity, documents, memory and time
// ---------------------------------------------------------------------------

/// The section that says who the agent is and where it runs.
pub open spec fn identity_section(
    identity: Seq<char>,
    os: Seq<char>,
    arch: Seq<char>,
    workspace: Seq<char>,
) -> Seq<char> {
    identity + "\n\n## Runtime\n"@ + os + " "@ + arch
        + ", Rust\n\n## Workspace\nYour workspace is at: "@ + workspace
}

/// The section that says who the agent is and where it runs.
pub fn build_section_identity(identity: &str, os: &str, arch: &str, workspace: &str) -> (r: String)
    ensures
        r@ == identity_section(identity@, os@, arch@, workspace@),
{
    let mut r = identity.to_owned();
    r.push_str("\n\n## Runtime\n");
    r.push_str(os);
    r.push_str(" ");
    r.push_str(arch);
    r.push_str(", Rust\n\n## Workspace\nYour workspace is at: ");
    r.push_str(workspace);
    r
}

/// The section with the guidelines.
pub fn build_section_guidelines(guidelines: &str) -> (r: String)
    ensures
        r@ == "## GUIDELINES\n\n"@ + guidelines@,
{
    let mut r = "## GUIDELINES\n\n".to_owned();
    r.push_str(guidelines);
    r
}

/// Whether a line of the identity says something.
pub open spec fn says_something(line: Seq<char>) -> bool {
    text::trim(line).len() > 0 && !text::starts_with(line, "#"@)
}

/// The first line of the identity that is neither blank nor a heading, else
/// the whole.
pub open spec fn identity_summary(identity: Seq<char>) -> Seq<char> {
    let ls = text::lines(identity);
    match seqs::first_from(|i: int| says_something(ls[i]), 0, ls.len() as int) {
        Some(i) => text::trim(ls[i]),
        None => identity,
    }
}

/// The first line of the identity that is neither blank nor a heading, else
/// the whole.
pub fn build_identity_summary(identity: &str) -> (r: String)
    ensures
        r@ == identity_summary(identity@),
{
    let lines = str_lines(identity);
    let ghost ls = text::lines(identity@);
    let ghost f = |i: int| says_something(ls[i]);
    let n: usize = lines.len();
    let mut i: usize = 0;
    while i < n
        invariant
            0 <= i <= n == lines@.len(),
            text::texts(lines@) == ls,
            ls == text::lines(identity@),
            f == (|i: int| says_something(ls[i])),
            seqs::first_from(f, 0, n as int) == seqs::first_from(f, i as int, n as int),
        decreases n - i,
    {
        proof {
            assert(ls[i as int] == lines@[i as int]@);
        }
        let trimmed = str_trim(lines[i].as_str());
        if !trimmed.as_str().is_empty() && !str_starts_with(lines[i].as_str(), "#") {
            return trimmed;
        }
        i += 1;
    }
    identity.to_owned()
}

/// What stands behind the last dot of a file name, unless that dot comes first.
pub open spec fn extension(name: Seq<char>) -> Option<Seq<char>> {
    match text::last_of(name, '.') {
        Some(k) => if k > 0 {
            Some(name.skip(k + 1))
        } else {
            None
        },
        None => None,
    }
}

/// Whether the file is a document by its name.
pub open spec fn is_document(name: Seq<char>) -> bool {
    extension(name) is Some && text::same_but_case(extension(name)->0, "md"@)
}

/// Whether the file is a document by its name.
pub fn is_bootstrap_file(name: &str) -> (r: bool)
    ensures
        r == is_document(name@),
{
    let cs = chars_of(name);
    let n: usize = cs.len();
    match last_at(cs.as_slice(), '.') {
        Some(k) => {
            if k == 0 {
                return false;
            }
            let ext = string_of(cs.as_slice(), k + 1, n);
            proof {
                assert(ext@ =~= name@.skip(k + 1));
            }
            eq_but_case(ext.as_str(), "md")
        },
        None => false,
    }
}

/// Whether a document goes into the prompt.
pub open spec fn is_included(file: (Seq<char>, Seq<char>), minimal: bool) -> bool {
    &&& is_document(file.0)
    &&& minimal ==> text::same_but_case(file.0, "TOOLS.md"@)
    &&& file.1.len() > 0
}

/// A document under its name.
pub open spec fn document_text(file: (Seq<char>, Seq<char>)) -> Seq<char> {
    "## "@ + text::strip_ends(text::strip_ends(file.0, ".md"@), ".MD"@) + "\n\n"@ + file.1
}

/// The texts of the documents that go into the prompt.
pub open spec fn document_texts(files: Seq<(Seq<char>, Seq<char>)>, minimal: bool) -> Seq<Seq<char>>
    decreases files.len(),
{
    if files.len() == 0 {
        Seq::empty()
    } else {
        let before = document_texts(files.drop_last(), minimal);
        if is_included(files.last(), minimal) {
            before.push(document_text(files.last()))
        } else {
            before
        }
    }
}

/// The documents of a workspace, in the order of their names.
pub open spec fn documents(files: Seq<(Seq<char>, Seq<char>)>, minimal: bool) -> Seq<char> {
    text::join(document_texts(order::sorted(files), minimal), "\n\n"@)
}

/// The documents of a workspace, given its files with their contents.
pub fn build_workspace_bootstrap_docs(files: &Vec<(String, String)>, minimal: bool) -> (r: String)
    ensures
        r@ == documents(order::keyed(files@), minimal),
{
    let ordered = sort_pairs(files);
    let ghost all = order::keyed(ordered@);
    let mut parts: Vec<String> = Vec::new();
    let mut i: usize = 0;
    proof {
        assert(text::texts(parts@) =~= document_texts(all.take(0), minimal));
    }
    while i < ordered.len()
        invariant
            0 <= i <= ordered@.len(),
            all == order::keyed(ordered@),
            text::texts(parts@) == document_texts(all.take(i as int), minimal),
        decreases ordered@.len() - i,
    {
        proof {
            assert(all.take(i + 1).drop_last() =~= all.take(i as int));
            assert(all.take(i + 1).last() == (ordered@[i as int].0@, ordered@[i as int].1@));
        }
        let name = ordered[i].0.as_str();
        let content = ordered[i].1.as_str();
        if is_bootstrap_file(name) && (!minimal || eq_but_case(name, "TOOLS.md"))
            && !content.is_empty() {
            let stem = str_strip_ends(name, ".md");
            let stem = str_strip_ends(stem.as_str(), ".MD");
            let mut part = "## ".to_owned();
            part.push_str(stem.as_str());
            part.push_str("\n\n");
            part.push_str(content);
            let ghost before = parts@;
            parts.push(part);
            proof {
                assert(text::texts(parts@) =~= text::texts(before).push(part@));
            }
        }
        i += 1;
    }
    proof {
        assert(all.take(i as int) =~= all);
    }
    str_join(&parts, "\n\n")
}

/// The section with the long-term memory; empty where there is none.
pub open spec fn memory_section(content: Seq<char>) -> Seq<char> {
    if content.len() == 0 {
        Seq::empty()
    } else {
        "# Memory\n\n"@ + content
    }
}

/// The section with the long-term memory; empty where there is none.
pub fn build_section_memory(content: &str) -> (r: String)
    ensures
        r@ == memory_section(content@),
{
    if content.is_empty() {
        String::new()
    } else {
        let mut r = "# Memory\n\n".to_owned();
        r.push_str(content);
        r
    }
}

/// The section with the time.
pub open spec fn time_section(formatted: Seq<char>, zone: Seq<char>) -> Seq<char> {
    "# Date & Time\n\nCurrent time: "@ + formatted + "\nTimezone: "@ + zone
}

/// The section with the time.
pub fn build_section_datetime(formatted: &str, zone: &str) -> (r: String)
    ensures
        r@ == time_section(formatted@, zone@),
{
    let mut r = "# Date & Time\n\nCurrent time: ".to_owned();
    r.push_str(formatted);
    r.push_str("\nTimezone: ");
    r.push_str(zone);
    r
}

// ---------------------------------------------------------------------------
// Laws
// ---------------------------------------------------------------------------

proof fn lemma_document_texts(files: Seq<(Seq<char>, Seq<char>)>, minimal: bool, i: int)
    requires
        0 <= i < files.len(),
        is_included(files[i], minimal),
    ensures
        document_texts(files, minimal).contains(document_text(files[i])),
    decreases files.len(),
{
    let p = files.drop_last();
    let r = document_texts(files, minimal);
    if i == files.len() - 1 {
        assert(r[r.len() - 1] == document_text(files[i]));
    } else {
        lemma_document_texts(p, minimal, i);
        let b = document_texts(p, minimal);
        let k = choose|k: int| 0 <= k < b.len() && b[k] == document_text(files[i]);
        assert(r[k] == b[k]);
    }
}

/// The documents of a workspace are all there, each whole and under a heading;
/// where only the one on the tools is wanted, that one is.
pub proof fn law_documents_hold_every_document(
    files: Seq<(Seq<char>, Seq<char>)>,
    minimal: bool,
    k: int,
    stem: Seq<char>,
)
    requires
        0 <= k < files.len(),
        files[k].0 == stem + ".md"@,
        stem.len() > 0,
        files[k].1.len() > 0,
        minimal ==> files[k].0 == "TOOLS.md"@,
    ensures
        text::contains(documents(files, minimal), files[k].1),
        text::contains(documents(files, minimal), "## "@),
{
    broadcast use vstd::seq_lib::group_to_multiset_ensures;

    let f = files[k];
    reveal_strlit(".md");
    reveal_strlit("md");
    text::lemma_last_of(f.0, '.');
    assert(f.0[stem.len() as int] == '.');
    assert(text::last_of(f.0, '.') == Some(stem.len() as int)) by {
        let n = text::last_of(f.0, '.');
        assert(f.0[stem.len() as int + 1] == 'm' && f.0[stem.len() as int + 2] == 'd');
    }
    assert(f.0.skip(stem.len() as int + 1) =~= "md"@);
    assert(is_included(f, minimal));
    let s = order::sorted(files);
    order::law_sorted(files);
    assert(files.to_multiset().contains(f));
    assert(s.to_multiset().contains(f));
    assert(s.contains(f));
    let i = choose|i: int| 0 <= i < s.len() && s[i] == f;
    lemma_document_texts(s, minimal, i);
    let d = document_texts(s, minimal);
    let j = choose|j: int| 0 <= j < d.len() && d[j] == document_text(f);
    let all = documents(files, minimal);
    text::law_joined_text_holds_every_part(d, "\n\n"@, j);
    let name = text::strip_ends(text::strip_ends(f.0, ".md"@), ".MD"@);
    let t = document_text(f);
    assert(t =~= ("## "@ + name + "\n\n"@) + f.1 + Seq::<char>::empty());
    text::lemma_contains_part("## "@ + name + "\n\n"@, f.1, Seq::empty());
    assert(t =~= Seq::<char>::empty() + "## "@ + (name + "\n\n"@ + f.1));
    text::lemma_contains_part(Seq::empty(), "## "@, name + "\n\n"@ + f.1);
    text::lemma_contains_within(all, t, f.1);
    text::lemma_contains_within(all, t, "## "@);
}

proof fn lemma_skill_line(s: SkillContent)
    ensures
        text::contains(skill_line(s), s.name@),
        text::contains(skill_line(s), skill_summary(s.description@, s.content@)),
{
    let l = skill_line(s);
    let sum = skill_summary(s.description@, s.content@);
    let place = skill_place(message::opt_text(s.tool_path));
    assert(text::contains(l, s.name@)) by {
        assert(l =~= "- **"@ + s.name@ + ("**: "@ + sum + place));
        text::lemma_contains_part("- **"@, s.name@, "**: "@ + sum + place);
    }
    assert(text::contains(l, sum)) by {
        assert(l =~= ("- **"@ + s.name@ + "**: "@) + sum + place);
        text::lemma_contains_part("- **"@ + s.name@ + "**: "@, sum, place);
    }
}

/// The section on the skills names each of them, and says of each what it is
/// described as, where that is short.
pub proof fn law_skills_are_listed(intro: Seq<char>, skills: Seq<SkillContent>, k: int)
    requires
        0 <= k < skills.len(),
    ensures
        text::contains(skills_section(intro, skills), skills[k].name@),
        0 < text::trim(skills[k].description@).len() <= 80 ==> text::contains(
            skills_section(intro, skills),
            text::trim(skills[k].description@),
        ),
{
    let s = skills[k];
    let all = skills_section(intro, skills);
    let l = skill_lines(skills);
    let list = text::join(l, "\n"@);
    let line = skill_line(s);
    assert(text::contains(all, line)) by {
        assert(l[k] == line);
        text::law_joined_text_holds_every_part(l, "\n"@, k);
        let head = "# Available Skills\n\n"@ + intro + "\n\n"@;
        assert(all =~= head + list + Seq::<char>::empty());
        text::lemma_contains_part(head, list, Seq::empty());
        text::lemma_contains_within(all, list, line);
    }
    lemma_skill_line(s);
    text::lemma_contains_within(all, line, s.name@);
    text::lemma_contains_within(all, line, skill_summary(s.description@, s.content@));
}

proof fn lemma_names_in(caps: Seq<TextTable>, k: int)
    requires
        0 <= k < caps.len(),
    ensures
        names_in(caps, category_of(caps[k])).contains(name_of(caps[k])),
        categories(caps).contains(category_of(caps[k])),
    decreases caps.len(),
{
    let p = caps.drop_last();
    let c = category_of(caps[k]);
    let r = names_in(caps, c);
    let cs = categories(caps);
    if k == caps.len() - 1 {
        assert(r[r.len() - 1] == name_of(caps[k]));
        if !categories(p).contains(c) {
            assert(cs[cs.len() - 1] == c);
        }
    } else {
        lemma_names_in(p, k);
        let b = names_in(p, c);
        let i = choose|i: int| 0 <= i < b.len() && b[i] == name_of(caps[k]);
        assert(r[i] == b[i]);
        let bs = categories(p);
        let j = choose|j: int| 0 <= j < bs.len() && bs[j] == c;
        assert(cs[j] == bs[j]);
    }
}

proof fn lemma_category_line(caps: Seq<TextTable>, k: int)
    requires
        0 <= k < caps.len(),
    ensures
        text::contains(category_line(caps, category_of(caps[k])), category_of(caps[k])),
        text::contains(category_line(caps, category_of(caps[k])), name_of(caps[k])),
{
    let c = category_of(caps[k]);
    let name = name_of(caps[k]);
    let line = category_line(caps, c);
    let names = names_in(caps, c);
    let joined = text::join(names, "、"@);
    let tail = " ("@ + text::dec(names.len()) + "个)"@;
    assert(text::contains(line, c)) by {
        assert(line =~= "- **"@ + c + ("**: "@ + joined + tail));
        text::lemma_contains_part("- **"@, c, "**: "@ + joined + tail);
    }
    assert(text::contains(line, joined)) by {
        assert(line =~= ("- **"@ + c + "**: "@) + joined + tail);
        text::lemma_contains_part("- **"@ + c + "**: "@, joined, tail);
    }
    lemma_names_in(caps, k);
    let n = choose|n: int| 0 <= n < names.len() && names[n] == name;
    text::law_joined_text_holds_every_part(names, "、"@, n);
    text::lemma_contains_within(line, joined, name);
}

proof fn lemma_line_of_category(caps: Seq<TextTable>, k: int)
    requires
        0 <= k < caps.len(),
    ensures
        text::contains(
            text::join(seconds(order::sorted(category_pairs(caps))), "\n"@),
            category_line(caps, category_of(caps[k])),
        ),
{
    broadcast use vstd::seq_lib::group_to_multiset_ensures;

    lemma_names_in(caps, k);
    let c = category_of(caps[k]);
    let cs = categories(caps);
    let i = choose|i: int| 0 <= i < cs.len() && cs[i] == c;
    let pairs = category_pairs(caps);
    let x = (c, category_line(caps, c));
    assert(pairs[i] == x);
    let s = order::sorted(pairs);
    order::law_sorted(pairs);
    assert(pairs.to_multiset().contains(x));
    assert(s.to_multiset().contains(x));
    assert(s.contains(x));
    let j = choose|j: int| 0 <= j < s.len() && s[j] == x;
    let l = seconds(s);
    assert(l[j] == x.1);
    text::law_joined_text_holds_every_part(l, "\n"@, j);
}

/// The section on the capabilities names each of them and its category.
pub proof fn law_capabilities_are_listed(caps: Seq<TextTable>, k: int)
    requires
        0 <= k < caps.len(),
    ensures
        caps[k]@.contains_key("name"@) ==> text::contains(
            capabilities_section(caps),
            caps[k]@["name"@],
        ),
        caps[k]@.contains_key("category"@) ==> text::contains(
            capabilities_section(caps),
            caps[k]@["category"@],
        ),
{
    let line = category_line(caps, category_of(caps[k]));
    let list = text::join(seconds(order::sorted(category_pairs(caps))), "\n"@);
    let all = capabilities_section(caps);
    assert(text::contains(all, line)) by {
        lemma_line_of_category(caps, k);
        let head = "# Available Capabilities ("@ + text::dec(caps.len()) + " total)\n\n"@;
        assert(all =~= head + list + Seq::<char>::empty());
        text::lemma_contains_part(head, list, Seq::empty());
        text::lemma_contains_within(all, list, line);
    }
    lemma_category_line(caps, k);
    text::lemma_contains_within(all, line, category_of(caps[k]));
    text::lemma_contains_within(all, line, name_of(caps[k]));
}

} // verus!
