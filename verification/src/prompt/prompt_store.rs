//! The store of prompt texts: a file of named text blocks, some of them under
//! a section, with variables in the texts.

use crate::message;
use crate::order;
use crate::table::TextTable;
use crate::text;
use crate::text::{
    chars_of, find_at, floor_chars_of, str_byte_len, str_contains, str_ends_with, str_eq, str_join,
    str_lines, str_replace, str_starts_with, str_trim, str_trim_end, string_of, white_prefix,
};
use vstd::prelude::*;

verus! {

// ---------------------------------------------------------------------------
// The file
// ---------------------------------------------------------------------------

/// Where a text block stands.
#[derive(Debug, Clone, Copy, PartialEq, Eq, Structural)]
pub enum Section {
    /// Under no section.
    Top,
    /// Under `node_types:`.
    NodeTypes,
    /// Under `nudges:`.
    Nudges,
}

/// How many bytes of white space a line starts with.
pub open spec fn indent(line: Seq<char>) -> nat {
    text::byte_len(line.take(text::lead_white(line) as int))
}

/// Whether a line belongs to the block of a header with that indent: it is
/// blank, or it is indented by two more bytes at least.
pub open spec fn in_block(line: Seq<char>, header: nat) -> bool {
    text::trim(line).len() == 0 || indent(line) >= header + 2
}

/// How many lines belong to the block, from the first.
pub open spec fn block_len(lines: Seq<Seq<char>>, header: nat) -> nat
    decreases lines.len(),
{
    if lines.len() == 0 || !in_block(lines[0], header) {
        0
    } else {
        1 + block_len(lines.skip(1), header)
    }
}

/// A block has no more lines than there are.
pub proof fn lemma_block_len_bound(lines: Seq<Seq<char>>, header: nat)
    ensures
        block_len(lines, header) <= lines.len(),
    decreases lines.len(),
{
    if lines.len() > 0 && in_block(lines[0], header) {
        lemma_block_len_bound(lines.skip(1), header);
    }
}

/// Whether a line can be cut behind its first `n` bytes.
pub open spec fn cuts_at(line: Seq<char>, n: nat) -> bool {
    text::byte_len(text::floor_prefix(line, n)) == n
}

/// Whether the indent of the block can be cut off the line.
pub open spec fn cuts_off(line: Seq<char>, header: nat) -> bool {
    text::trim(line).len() == 0 || cuts_at(line, header + 2)
}

/// A line of the block without the indent of the block.
pub open spec fn block_line(line: Seq<char>, header: nat) -> Seq<char> {
    if text::trim(line).len() == 0 {
        Seq::empty()
    } else {
        line.skip(text::floor_chars(line, header + 2) as int)
    }
}

/// The lines of the block without its indent.
pub open spec fn block_lines(lines: Seq<Seq<char>>, header: nat) -> Seq<Seq<char>> {
    Seq::new(lines.len(), |i: int| block_line(lines[i], header))
}

/// The text of a block.
pub open spec fn block_text(lines: Seq<Seq<char>>, header: nat) -> Seq<char> {
    text::trim_end(text::join(block_lines(lines, header), "\n"@))
}

/// Whether the line that starts the block `key: |` names it, and where.
pub open spec fn header_at(t: Seq<char>) -> Option<int> {
    text::find_from(t, ": |"@, 0)
}

/// The text blocks of the file, in order, each with its section and its name.
/// A line that starts with `#` is a comment, except as a line of a block and
/// directly behind one. Nothing where the indent of a block cannot be cut off
/// one of its lines.
pub open spec fn read_blocks(lines: Seq<Seq<char>>, section: Section, behind_block: bool) -> Option<
    Seq<(Section, Seq<char>, Seq<char>)>,
>
    decreases lines.len(),
{
    if lines.len() == 0 {
        Some(Seq::empty())
    } else {
        let line = lines[0];
        let t = text::trim(line);
        let rest = lines.skip(1);
        if t.len() == 0 || !behind_block && text::starts_with(t, "#"@) {
            read_blocks(rest, section, behind_block)
        } else if t == "node_types:"@ {
            read_blocks(rest, Section::NodeTypes, false)
        } else if t == "nudges:"@ {
            read_blocks(rest, Section::Nudges, false)
        } else if header_at(t) is Some {
            let header = indent(line);
            let own = if header == 0 {
                Section::Top
            } else {
                section
            };
            let n = block_len(rest, header) as int;
            let block = rest.take(n);
            let value = block_text(block, header);
            proof {
                lemma_block_len_bound(rest, header);
            }
            if exists|i: int| 0 <= i < block.len() && !cuts_off(#[trigger] block[i], header) {
                None
            } else {
                match read_blocks(rest.skip(n), own, true) {
                    Some(more) => Some(
                        if value.len() == 0 {
                            more
                        } else {
                            seq![(own, text::trim(t.take(header_at(t)->0)), value)] + more
                        },
                    ),
                    None => None,
                }
            }
        } else if text::contains(t, ": "@) && indent(line) == 0 && !text::ends_with(t, ":"@) {
            read_blocks(rest, Section::Top, false)
        } else {
            read_blocks(rest, section, false)
        }
    }
}

/// The blocks of one section by name; of two with one name the later counts.
pub open spec fn table_of(
    blocks: Seq<(Section, Seq<char>, Seq<char>)>,
    section: Section,
) -> Map<Seq<char>, Seq<char>>
    decreases blocks.len(),
{
    if blocks.len() == 0 {
        Map::empty()
    } else {
        let before = table_of(blocks.drop_last(), section);
        let b = blocks.last();
        if b.0 == section {
            before.insert(b.1, b.2)
        } else {
            before
        }
    }
}

/// The text blocks of the file.
pub open spec fn blocks_of(content: Seq<char>) -> Option<Seq<(Section, Seq<char>, Seq<char>)>> {
    read_blocks(text::lines(content), Section::Top, false)
}

/// The prompt texts of a file.
#[derive(Debug)]
pub struct Prompts {
    pub top: TextTable,
    pub node_types: TextTable,
    pub nudges: TextTable,
}

/// Whether the prompt texts are those of the blocks.
pub open spec fn holds_blocks(p: Prompts, blocks: Seq<(Section, Seq<char>, Seq<char>)>) -> bool {
    &&& p.top@ == table_of(blocks, Section::Top)
    &&& p.node_types@ == table_of(blocks, Section::NodeTypes)
    &&& p.nudges@ == table_of(blocks, Section::Nudges)
}

fn indent_of(line: &str) -> (r: usize)
    ensures
        r == indent(line@),
        r <= text::byte_len(line@),
{
    let cs = chars_of(line);
    let n = white_prefix(cs.as_slice());
    let lead = string_of(cs.as_slice(), 0, n);
    proof {
        assert(lead@ =~= line@.take(n as int));
        text::lemma_byte_len_take(line@, n as int);
    }
    str_byte_len(lead.as_str())
}

/// A line of the block without the indent of the block, where it can be cut
/// off.
fn cut_indent(line: &str, header: usize) -> (r: Option<String>)
    requires
        in_block(line@, header as nat),
    ensures
        r is Some <==> cuts_off(line@, header as nat),
        r matches Some(t) ==> t@ == block_line(line@, header as nat),
{
    let trimmed = str_trim(line);
    if trimmed.as_str().is_empty() {
        return Some(String::new());
    }
    let own = indent_of(line);
    let cs = chars_of(line);
    let n: usize = cs.len();
    let k = floor_chars_of(cs.as_slice(), header + 2);
    let head = string_of(cs.as_slice(), 0, k);
    proof {
        assert(head@ =~= text::floor_prefix(line@, (header + 2) as nat));
    }
    if str_byte_len(head.as_str()) != header + 2 {
        return None;
    }
    let tail = string_of(cs.as_slice(), k, n);
    proof {
        assert(tail@ =~= line@.skip(k as int));
    }
    Some(tail)
}

fn is_in_block(line: &str, header: usize) -> (r: bool)
    ensures
        r == in_block(line@, header as nat),
{
    let trimmed = str_trim(line);
    if trimmed.as_str().is_empty() {
        return true;
    }
    let own = indent_of(line);
    own >= 2 && own - 2 >= header
}

proof fn lemma_block_len(lines: Seq<Seq<char>>, header: nat, n: int)
    requires
        0 <= n <= lines.len(),
        forall|i: int| 0 <= i < n ==> in_block(#[trigger] lines[i], header),
        n < lines.len() ==> !in_block(lines[n], header),
    ensures
        block_len(lines, header) == n,
    decreases n,
{
    if n > 0 {
        let rest = lines.skip(1);
        assert forall|i: int| 0 <= i < n - 1 implies in_block(#[trigger] rest[i], header) by {
            assert(rest[i] == lines[i + 1]);
        }
        assert(in_block(lines[0], header));
        lemma_block_len(rest, header, n - 1);
    }
}

/// The text of the block whose lines start at `from`, and the position behind
/// it.
fn read_block(lines: &Vec<String>, from: usize, header: usize) -> (r: (usize, Option<String>))
    requires
        from <= lines@.len(),
    ensures
        ({
            let rest = text::texts(lines@).skip(from as int);
            let n = block_len(rest, header as nat) as int;
            let block = rest.take(n);
            &&& from <= r.0 <= lines@.len()
            &&& r.0 - from == n
            &&& r.1 is None <==> exists|i: int|
                0 <= i < block.len() && !cuts_off(#[trigger] block[i], header as nat)
            &&& r.1 matches Some(t) ==> t@ == block_text(block, header as nat)
        }),
{
    let ghost all = text::texts(lines@);
    let ghost rest = all.skip(from as int);
    let mut out: Vec<String> = Vec::new();
    let mut sound = true;
    let mut i: usize = from;
    let n: usize = lines.len();
    let ghost h = header as nat;
    while i < n && is_in_block(lines[i].as_str(), header)
        invariant
            from <= i <= n == lines@.len(),
            all == text::texts(lines@),
            rest == all.skip(from as int),
            h == header,
            forall|k: int| 0 <= k < i - from ==> in_block(#[trigger] rest[k], h),
            sound ==> out@.len() == i - from,
            sound ==> forall|k: int|
                0 <= k < i - from ==> (#[trigger] out@[k])@ == block_line(rest[k], h),
            sound ==> forall|k: int| 0 <= k < i - from ==> cuts_off(#[trigger] rest[k], h),
            !sound ==> exists|k: int| 0 <= k < i - from && !cuts_off(#[trigger] rest[k], h),
        decreases n - i,
    {
        proof {
            assert(rest[i - from] == lines@[i as int]@);
        }
        match cut_indent(lines[i].as_str(), header) {
            Some(t) => {
                if sound {
                    out.push(t);
                }
            },
            None => {
                sound = false;
            },
        }
        i += 1;
    }
    proof {
        if i < n {
            assert(rest[i - from] == lines@[i as int]@);
        }
        lemma_block_len(rest, h, i - from);
    }
    let ghost block = rest.take(i - from);
    if !sound {
        proof {
            let k = choose|k: int| 0 <= k < i - from && !cuts_off(#[trigger] rest[k], h);
            assert(block[k] == rest[k]);
        }
        return (i, None);
    }
    proof {
        assert(text::texts(out@) =~= block_lines(block, h));
        assert forall|k: int| 0 <= k < block.len() implies cuts_off(#[trigger] block[k], h) by {
            assert(block[k] == rest[k]);
        }
    }
    let joined = str_join(&out, "\n");
    (i, Some(str_trim_end(joined.as_str())))
}

proof fn lemma_blocks_more(
    whole: Option<Seq<(Section, Seq<char>, Seq<char>)>>,
    done: Seq<(Section, Seq<char>, Seq<char>)>,
    tail: Option<Seq<(Section, Seq<char>, Seq<char>)>>,
    b: (Section, Seq<char>, Seq<char>),
    more: Option<Seq<(Section, Seq<char>, Seq<char>)>>,
)
    requires
        tail is Some ==> whole == Some(done + tail->0),
        tail is None ==> whole is None,
        more is Some ==> tail == Some(seq![b] + more->0),
        more is None ==> tail is None,
    ensures
        more is Some ==> whole == Some(done.push(b) + more->0),
        more is None ==> whole is None,
{
    if more is Some {
        assert(done + (seq![b] + more->0) =~= done.push(b) + more->0);
    }
}

proof fn lemma_table_push(
    blocks: Seq<(Section, Seq<char>, Seq<char>)>,
    b: (Section, Seq<char>, Seq<char>),
    section: Section,
)
    ensures
        table_of(blocks.push(b), section) == if b.0 == section {
            table_of(blocks, section).insert(b.1, b.2)
        } else {
            table_of(blocks, section)
        },
{
    assert(blocks.push(b).drop_last() =~= blocks);
}

/// Reads the prompt texts of a file. Nothing where the indent of a block
/// cannot be cut off one of its lines.
pub fn parse_yaml(content: &str) -> (r: Option<Prompts>)
    ensures
        r is Some <==> blocks_of(content@) is Some,
        r matches Some(p) ==> holds_blocks(p, blocks_of(content@)->0),
{
    let lines = str_lines(content);
    let ghost all = text::texts(lines@);
    let ghost whole = blocks_of(content@);
    let ghost mut done: Seq<(Section, Seq<char>, Seq<char>)> = Seq::empty();
    let mut p = Prompts {
        top: TextTable::new(),
        node_types: TextTable::new(),
        nudges: TextTable::new(),
    };
    let mut section = Section::Top;
    let mut behind_block = false;
    let mut i: usize = 0;
    let n: usize = lines.len();
    proof {
        assert(all.skip(0) =~= all);
        if whole is Some {
            assert(done + whole->0 =~= whole->0);
        }
    }
    while i < n
        invariant
            0 <= i <= n == lines@.len(),
            all == text::texts(lines@),
            holds_blocks(p, done),
            read_blocks(all.skip(i as int), section, behind_block) is Some ==> whole == Some(
                done + read_blocks(all.skip(i as int), section, behind_block)->0,
            ),
            read_blocks(all.skip(i as int), section, behind_block) is None ==> whole is None,
            whole == blocks_of(content@),
        decreases n - i,
    {
        let ghost here = all.skip(i as int);
        let ghost tail = read_blocks(here, section, behind_block);
        proof {
            assert(here[0] == lines@[i as int]@);
            assert(here.skip(1) =~= all.skip(i + 1));
        }
        let line = lines[i].as_str();
        let trimmed = str_trim(line);
        let t = trimmed.as_str();
        i += 1;
        if t.is_empty() || !behind_block && str_starts_with(t, "#") {
            continue ;
        }
        if str_eq(t, "node_types:") {
            section = Section::NodeTypes;
            behind_block = false;
            continue ;
        }
        if str_eq(t, "nudges:") {
            section = Section::Nudges;
            behind_block = false;
            continue ;
        }
        let tc = chars_of(t);
        let pat = chars_of(": |");
        let at = find_at(tc.as_slice(), pat.as_slice(), 0);
        let own_indent = indent_of(line);
        if let Some(k) = at {
            proof {
                text::lemma_find_from(t@, ": |"@, 0);
            }
            let name = string_of(tc.as_slice(), 0, k);
            proof {
                assert(name@ =~= t@.take(k as int));
            }
            let key = str_trim(name.as_str());
            if own_indent == 0 {
                section = Section::Top;
            }
            behind_block = true;
            let (next, value) = read_block(&lines, i, own_indent);
            let ghost rest = all.skip(i as int);
            let ghost cut = block_len(rest, own_indent as nat) as int;
            proof {
                assert(rest.skip(cut) =~= all.skip(next as int));
            }
            match value {
                Some(v) => {
                    if !v.as_str().is_empty() {
                        let ghost b = (section, key@, v@);
                        proof {
                            lemma_blocks_more(
                                whole,
                                done,
                                tail,
                                b,
                                read_blocks(all.skip(next as int), section, true),
                            );
                            lemma_table_push(done, b, Section::Top);
                            lemma_table_push(done, b, Section::NodeTypes);
                            lemma_table_push(done, b, Section::Nudges);
                            done = done.push(b);
                        }
                        match section {
                            Section::NodeTypes => p.node_types.insert(key, v),
                            Section::Nudges => p.nudges.insert(key, v),
                            Section::Top => p.top.insert(key, v),
                        }
                    }
                },
                None => {
                    return None;
                },
            }
            i = next;
            continue ;
        }
        if str_contains(t, ": ") && own_indent == 0 && !str_ends_with(t, ":") {
            section = Section::Top;
        }
        behind_block = false;
    }
    proof {
        if whole is Some {
            assert(done + Seq::<(Section, Seq<char>, Seq<char>)>::empty() =~= done);
        }
    }
    Some(p)
}

/// A block that a file gives is never empty and does not end in white space.
pub proof fn law_blocks_are_trimmed(lines: Seq<Seq<char>>, section: Section, behind_block: bool)
    ensures
        read_blocks(lines, section, behind_block) matches Some(blocks) ==> forall|i: int|
            0 <= i < blocks.len() ==> (#[trigger] blocks[i]).2.len() > 0 && text::trim_end(
                blocks[i].2,
            ) == blocks[i].2,
    decreases lines.len(),
{
    if lines.len() > 0 {
        let rest = lines.skip(1);
        law_blocks_are_trimmed(rest, section, behind_block);
        law_blocks_are_trimmed(rest, section, false);
        law_blocks_are_trimmed(rest, Section::NodeTypes, false);
        law_blocks_are_trimmed(rest, Section::Nudges, false);
        law_blocks_are_trimmed(rest, Section::Top, false);
        let header = indent(lines[0]);
        let n = block_len(rest, header) as int;
        lemma_block_len_bound(rest, header);
        law_blocks_are_trimmed(rest.skip(n), section, true);
        law_blocks_are_trimmed(rest.skip(n), Section::Top, true);
        let joined = text::join(block_lines(rest.take(n), header), "\n"@);
        text::lemma_trim_end_twice(joined);
    }
}

// ---------------------------------------------------------------------------
// The store
// ---------------------------------------------------------------------------

/// The prompt texts and the variables in them. Both are set once.
#[derive(Debug)]
pub struct PromptStore {
    pub prompts: Option<Prompts>,
    pub path_vars: Option<Vec<(String, String)>>,
}

/// A text with its variables `${NAME}` replaced, one after the other.
pub open spec fn substituted(t: Seq<char>, vars: Seq<(Seq<char>, Seq<char>)>) -> Seq<char>
    decreases vars.len(),
{
    if vars.len() == 0 {
        t
    } else {
        text::replace_all(
            substituted(t, vars.drop_last()),
            "${"@ + vars.last().0 + "}"@,
            vars.last().1,
        )
    }
}

impl PromptStore {
    /// The store before anything is set.
    pub fn new() -> (r: PromptStore)
        ensures
            r.prompts is None,
            r.path_vars is None,
    {
        PromptStore { prompts: None, path_vars: None }
    }

    /// The variables that are set.
    pub open spec fn vars(self) -> Seq<(Seq<char>, Seq<char>)> {
        match self.path_vars {
            Some(v) => order::keyed(v@),
            None => Seq::empty(),
        }
    }

    /// What a table holds under a name, with its variables replaced.
    pub open spec fn read(
        self,
        t: Map<Seq<char>, Seq<char>>,
        name: Seq<char>,
    ) -> Option<Seq<char>> {
        if t.contains_key(name) && t[name].len() > 0 {
            Some(substituted(t[name], self.vars()))
        } else {
            None
        }
    }

    /// The text of that name under no section.
    pub open spec fn top(self, name: Seq<char>) -> Option<Seq<char>> {
        match self.prompts {
            Some(p) => self.read(p.top@, name),
            None => None,
        }
    }

    /// The text of that name under `node_types:`.
    pub open spec fn node_type(self, name: Seq<char>) -> Option<Seq<char>> {
        match self.prompts {
            Some(p) => self.read(p.node_types@, name),
            None => None,
        }
    }

    /// The text of that name under `nudges:`.
    pub open spec fn nudge(self, name: Seq<char>) -> Option<Seq<char>> {
        match self.prompts {
            Some(p) => self.read(p.nudges@, name),
            None => None,
        }
    }
}

/// Fills the store with the prompt texts of a file, where it holds none yet.
/// False where the file cannot be read; the store is then left as it is.
pub fn init(store: &mut PromptStore, content: &str) -> (r: bool)
    ensures
        r <==> blocks_of(content@) is Some,
        final(store).path_vars == old(store).path_vars,
        old(store).prompts is Some || !r ==> final(store).prompts == old(store).prompts,
        old(store).prompts is None && r ==> final(store).prompts is Some && holds_blocks(
            final(store).prompts->0,
            blocks_of(content@)->0,
        ),
{
    match parse_yaml(content) {
        Some(p) => {
            if store.prompts.is_none() {
                store.prompts = Some(p);
            }
            true
        },
        None => false,
    }
}

/// Sets the variables, where none are set yet.
pub fn init_path_vars(store: &mut PromptStore, vars: Vec<(String, String)>)
    ensures
        final(store).prompts == old(store).prompts,
        final(store).path_vars == (if old(store).path_vars is Some {
            old(store).path_vars
        } else {
            Some(vars)
        }),
{
    if store.path_vars.is_none() {
        store.path_vars = Some(vars);
    }
}

/// A text with its variables replaced.
pub fn substitute_vars(store: &PromptStore, t: &str) -> (r: String)
    ensures
        r@ == substituted(t@, store.vars()),
{
    match &store.path_vars {
        Some(vars) => {
            let ghost vv = order::keyed(vars@);
            let mut out = t.to_owned();
            let mut i: usize = 0;
            while i < vars.len()
                invariant
                    0 <= i <= vars@.len(),
                    vv == order::keyed(vars@),
                    out@ == substituted(t@, vv.take(i as int)),
                decreases vars@.len() - i,
            {
                proof {
                    reveal_strlit("${");
                    assert(vv.take(i + 1).drop_last() =~= vv.take(i as int));
                    assert(vv.take(i + 1).last() == (vars@[i as int].0@, vars@[i as int].1@));
                }
                let mut pattern = "${".to_owned();
                pattern.push_str(vars[i].0.as_str());
                pattern.push_str("}");
                out = str_replace(out.as_str(), pattern.as_str(), vars[i].1.as_str());
                i += 1;
            }
            proof {
                assert(vv.take(i as int) =~= vv);
            }
            out
        },
        None => t.to_owned(),
    }
}

fn lookup(store: &PromptStore, t: &TextTable, name: &str) -> (r: Option<String>)
    ensures
        store.read(t@, name@) == message::opt_text(r),
{
    match t.get(name) {
        Some(v) => if v.is_empty() {
            None
        } else {
            Some(substitute_vars(store, v))
        },
        None => None,
    }
}

/// The text of that name under no section, where there is one.
pub fn try_get(store: &PromptStore, key: &str) -> (r: Option<String>)
    ensures
        message::opt_text(r) == store.top(key@),
{
    match &store.prompts {
        Some(p) => lookup(store, &p.top, key),
        None => None,
    }
}

/// The text of that name under no section.
pub fn get(store: &PromptStore, key: &str) -> (r: String)
    requires
        store.top(key@) is Some,
    ensures
        store.top(key@) == Some(r@),
{
    match try_get(store, key) {
        Some(t) => t,
        None => String::new(),
    }
}

/// The text of that name under `node_types:`.
pub fn get_node_type(store: &PromptStore, node_type: &str) -> (r: String)
    requires
        store.node_type(node_type@) is Some,
    ensures
        store.node_type(node_type@) == Some(r@),
{
    match &store.prompts {
        Some(p) => match lookup(store, &p.node_types, node_type) {
            Some(t) => t,
            None => String::new(),
        },
        None => String::new(),
    }
}

/// The text of that name under `nudges:`.
pub fn get_nudge(store: &PromptStore, name: &str) -> (r: String)
    requires
        store.nudge(name@) is Some,
    ensures
        store.nudge(name@) == Some(r@),
{
    match &store.prompts {
        Some(p) => match lookup(store, &p.nudges, name) {
            Some(t) => t,
            None => String::new(),
        },
        None => String::new(),
    }
}

/// The text that a file gives last for a name in a section is the one that
/// the section holds under the name.
pub proof fn law_last_text_of_a_name_counts(blocks: Seq<(Section, Seq<char>, Seq<char>)>, i: int)
    requires
        0 <= i < blocks.len(),
        forall|j: int|
            i < j < blocks.len() ==> !((#[trigger] blocks[j]).0 == blocks[i].0 && blocks[j].1
                == blocks[i].1),
    ensures
        table_of(blocks, blocks[i].0).contains_key(blocks[i].1),
        table_of(blocks, blocks[i].0)[blocks[i].1] == blocks[i].2,
    decreases blocks.len(),
{
    if i < blocks.len() - 1 {
        let p = blocks.drop_last();
        assert(p[i] == blocks[i]);
        assert(!(blocks[blocks.len() - 1].0 == blocks[i].0 && blocks[blocks.len() - 1].1
            == blocks[i].1));
        assert forall|j: int| i < j < p.len() implies !((#[trigger] p[j]).0 == p[i].0 && p[j].1
            == p[i].1) by {
            assert(p[j] == blocks[j]);
        }
        law_last_text_of_a_name_counts(p, i);
    }
}

/// A block is read as its name and its lines without their indent: here one
/// under no section, with lines that are indented by two spaces and not blank.
pub proof fn law_block_is_read(name: Seq<char>, body: Seq<Seq<char>>)
    requires
        name.len() > 0,
        !text::is_white(name[0]),
        !text::is_white(name.last()),
        name[0] != '#',
        forall|i: int| 0 <= i < name.len() ==> #[trigger] name[i] != ':',
        body.len() > 0,
        forall|i: int|
            0 <= i < body.len() ==> (#[trigger] body[i]).len() > 0 && !text::is_white(body[i][0])
                && !text::is_white(body[i].last()),
    ensures
        read_blocks(
            seq![name + ": |"@] + Seq::new(body.len(), |i: int| seq![' ', ' '] + body[i]),
            Section::Top,
            false,
        ) == Some(seq![(Section::Top, name, text::join(body, "\n"@))]),
{
    reveal_strlit(": |");
    reveal_strlit("#");
    reveal_strlit("node_types:");
    reveal_strlit("nudges:");
    let head = name + ": |"@;
    let rest = Seq::new(body.len(), |i: int| seq![' ', ' '] + body[i]);
    let lines = seq![head] + rest;
    assert(lines[0] == head);
    assert(lines.skip(1) =~= rest);
    assert(": |"@.len() == 3 && ": |"@[2] == '|');
    assert(head.last() == '|');
    assert(head[0] == name[0]);
    text::law_trimmed_text_stays(head);
    assert(!text::starts_with(head, "#"@)) by {
        if text::starts_with(head, "#"@) {
            assert(head.subrange(0, 1)[0] == head[0]);
        }
    }
    assert(head != "node_types:"@) by {
        assert("node_types:"@.last() == ':');
    }
    assert(head != "nudges:"@) by {
        assert("nudges:"@.last() == ':');
    }
    let k = name.len() as int;
    assert(head.subrange(k, k + 3) =~= ": |"@);
    assert(text::occurs_at(head, ": |"@, k));
    assert forall|j: int| 0 <= j < k implies !#[trigger] text::occurs_at(head, ": |"@, j) by {
        if text::occurs_at(head, ": |"@, j) {
            assert(head.subrange(j, j + 3)[0] == head[j]);
            assert(head[j] == name[j]);
        }
    }
    text::lemma_found_first(head, ": |"@, 0, k);
    assert(head.take(k) =~= name);
    text::law_trimmed_text_stays(name);
    assert(text::lead_white(head) == 0);
    assert(head.take(0) =~= Seq::<char>::empty());
    assert(indent(head) == 0);
    lemma_indented_block(rest, body);
    assert(rest.take(rest.len() as int) =~= rest);
    assert(rest.skip(rest.len() as int) =~= Seq::<Seq<char>>::empty());
    let value = block_text(rest, 0);
    assert(block_lines(rest, 0) =~= body);
    lemma_joined_end(body);
    assert(value == text::join(body, "\n"@));
    assert(read_blocks(Seq::<Seq<char>>::empty(), Section::Top, true) == Some(
        Seq::<(Section, Seq<char>, Seq<char>)>::empty(),
    ));
    let one = seq![(Section::Top, name, value)];
    assert(one + Seq::<(Section, Seq<char>, Seq<char>)>::empty() =~= one);
}

proof fn lemma_indented_block(rest: Seq<Seq<char>>, body: Seq<Seq<char>>)
    requires
        rest.len() == body.len(),
        forall|i: int| 0 <= i < rest.len() ==> #[trigger] rest[i] == seq![' ', ' '] + body[i],
        forall|i: int|
            0 <= i < body.len() ==> (#[trigger] body[i]).len() > 0 && !text::is_white(body[i][0])
                && !text::is_white(body[i].last()),
    ensures
        block_len(rest, 0) == rest.len(),
        forall|i: int|
            0 <= i < rest.len() ==> cuts_off(#[trigger] rest[i], 0) && block_line(rest[i], 0)
                == body[i],
    decreases rest.len(),
{
    if rest.len() > 0 {
        let r = rest.skip(1);
        let b = body.skip(1);
        assert forall|i: int| 0 <= i < r.len() implies #[trigger] r[i] == seq![' ', ' '] + b[i] by {
            assert(r[i] == rest[i + 1]);
        }
        assert forall|i: int| 0 <= i < b.len() implies (#[trigger] b[i]).len() > 0
            && !text::is_white(b[i][0]) && !text::is_white(b[i].last()) by {
            assert(b[i] == body[i + 1]);
        }
        lemma_indented_block(r, b);
        assert forall|i: int| 0 <= i < rest.len() implies cuts_off(#[trigger] rest[i], 0)
            && block_line(rest[i], 0) == body[i] && in_block(rest[i], 0) by {
            lemma_indented_line(rest[i], body[i]);
        }
        assert(in_block(rest[0], 0));
    }
}

proof fn lemma_indented_line(line: Seq<char>, b: Seq<char>)
    requires
        line == seq![' ', ' '] + b,
        b.len() > 0,
        !text::is_white(b[0]),
    ensures
        in_block(line, 0),
        cuts_off(line, 0),
        block_line(line, 0) == b,
{
    text::lemma_trim_black(line, 2);
    assert(line[0] == ' ' && line[1] == ' ' && line[2] == b[0]);
    let l1 = line.skip(1);
    let l2 = l1.skip(1);
    assert(l1[0] == ' ');
    assert(l2[0] == b[0]);
    reveal_with_fuel(text::lead_white, 3);
    assert(text::lead_white(line) == 2);
    let t = line.take(2);
    assert(t.drop_last() =~= line.take(1));
    assert(line.take(1).drop_last() =~= Seq::<char>::empty());
    reveal_with_fuel(text::byte_len, 3);
    assert(text::byte_len(t) == 2);
    text::lemma_floor_chars(line, 2);
    let f = text::floor_chars(line, 2) as int;
    text::lemma_byte_len_take(line, 2);
    if f < 2 {
        assert(line.take(f + 1) =~= t.take(f + 1));
        text::lemma_byte_len_take(t, f + 1);
    }
    if f > 2 {
        text::lemma_byte_len_take(line.take(f), 2);
        assert(line.take(f).take(2) =~= t);
    }
    assert(f == 2);
    assert(line.skip(2) =~= b);
}

proof fn lemma_joined_end(body: Seq<Seq<char>>)
    requires
        body.len() > 0,
        body.last().len() > 0,
        !text::is_white(body.last().last()),
    ensures
        text::trim_end(text::join(body, "\n"@)) == text::join(body, "\n"@),
        text::join(body, "\n"@).len() > 0,
{
    let j = text::join(body, "\n"@);
    assert(j.len() > 0 && j.last() == body.last().last());
}

/// A variable in a text is replaced by its value, and a text without one
/// stays.
pub proof fn law_variables_are_replaced(a: Seq<char>, b: Seq<char>, name: Seq<char>, value: Seq<char>)
    requires
        ({
            let v = "${"@ + name + "}"@;
            &&& !text::contains(b, v)
            &&& forall|i: int| 0 <= i < a.len() ==> !#[trigger] text::occurs_at(a + v + b, v, i)
        }),
    ensures
        substituted(a + ("${"@ + name + "}"@) + b, seq![(name, value)]) == a + value + b,
        substituted(b, seq![(name, value)]) == b,
        substituted(b, Seq::empty()) == b,
{
    reveal_strlit("${");
    let v = "${"@ + name + "}"@;
    text::law_parts_are_replaced(a, v, b, value);
    let vars = seq![(name, value)];
    assert(vars.drop_last() =~= Seq::<(Seq<char>, Seq<char>)>::empty());
    reveal_with_fuel(substituted, 2);
}

} // verus!
