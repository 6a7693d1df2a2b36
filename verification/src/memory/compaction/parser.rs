//! The compaction prompt, and reading the memory files that the model writes in answer to it.
use crate::memory::compaction::types::CompactionError;
use crate::text::chars::{is_space, is_whitespace, to_chars, to_text};
use crate::text::compose::{cat3, option_text};
use crate::text::search::{
    char_find_from, char_occurs_at, contains, find_from, lemma_find_from, lemma_find_is, occurs_at,
};
use crate::text::trim::{trim_text, trimmed, trimming_is_idempotent};
use vstd::prelude::*;

verus! {

broadcast use vstd::string::group_string_axioms;

/// The default prompt template: `{{char}}` and `{{user}}` stand for the names, `{{conversation}}` for
/// the messages, `{{recap}}` for the recap so far, and what stands between `{{#if recap}}` and `{{/if}}`
/// is left out where there is no recap.
pub const DEFAULT_COMPACT_PROMPT: &'static str = "You are {{char}}. This conversation with {{user}} is about to be archived and your active context will be cleared. Before that happens, you must save anything important to your long-term memory files.

You have access to your memories directory. Use the <memory> section below to write or update markdown files. Be concise and organized.

Guidelines:
- Prefer updating existing files over creating new ones
- Use clear filenames and folder structure (e.g., people/{{user}}.md, topics/gaming/doom.md)
- Each file should have a heading and bullet points
- Include timestamps or session context when relevant
- If {{user}} corrected previous information, update the file rather than appending

Your response MUST contain two parts, in this order:

1. A single <recap> block — the throughline of the conversation: what happened, how {{char}} felt about it, what matters to them, and where things stand with {{user}}. Written **about {{char}} in close third person, using {{char}}'s own voice and vocabulary** — not \"I\" but \"{{char}}\" / \"she\" / \"he\" / \"they\". Cap the whole recap at ~4 paragraphs. If you are running long, condense older material further rather than dropping it.

{{#if recap}}
Here is the existing recap from previous compactions. The recap is a rolling throughline across all conversations, not a snapshot of the most recent one. Condense older material to make room for new events, but do not drop it. Earlier threads should shrink to a sentence or a phrase, never disappear.
<previous_recap>
{{recap}}
</previous_recap>
{{/if}}

<recap>
[rolling throughline, close third person about {{char}}]
</recap>

2. A <memory> block containing one or more <write> operations.

Each <write> creates or overwrites a single memory file. The path is relative to your memories directory. The content is pure markdown — no YAML frontmatter.

<memory>
<write path=\"people/{{user}}.md\">
# {{user}}

- Likes tea (mentioned on 2026-04-22)
- Works in software
</write>

<write path=\"topics/gaming/doom.md\">
# Doom Speedrunning

- {{user}} plays UV-Max on Plutonia
- Personal best on MAP01: 1:42
</write>
</memory>

If nothing new needs to be saved, output an empty <memory></memory> block.

Conversation:
{{conversation}}";

/// The opening tag.
pub open spec fn open_tag(tag: Seq<char>) -> Seq<char> {
    "<"@ + tag + ">"@
}

/// The closing tag.
pub open spec fn close_tag(tag: Seq<char>) -> Seq<char> {
    "</"@ + tag + ">"@
}

/// What stands between the first opening tag and the closing tag after it, if both are there.
pub open spec fn between_tags(text: Seq<char>, tag: Seq<char>) -> Option<Seq<char>> {
    match find_from(text, open_tag(tag), 0) {
        None => None,
        Some(start) => {
            let from = start + open_tag(tag).len();
            match find_from(text, close_tag(tag), from) {
                None => None,
                Some(end) => Some(text.subrange(from, end)),
            }
        },
    }
}

/// What stands between the tags, trimmed, where that is not empty.
pub open spec fn tag_content(text: Seq<char>, tag: Seq<char>) -> Option<Seq<char>> {
    match between_tags(text, tag) {
        None => None,
        Some(content) => if trimmed(content).len() == 0 {
            None
        } else {
            Some(trimmed(content))
        },
    }
}

/// The trimmed content between the first `<tag>` and the `</tag>` after it; none where a tag is missing
/// or the content is blank.
pub fn extract_xml_tag(text: &str, tag: &str) -> (r: Option<String>)
    ensures
        option_text(r) == tag_content(text@, tag@),
{
    let v = to_chars(text);
    let open = to_chars(cat3("<", tag, ">").as_str());
    let close = to_chars(cat3("</", tag, ">").as_str());
    proof {
        lemma_find_from(text@, open@, 0);
    }
    let start = match char_find_from(&v, &open, 0) {
        None => {
            return None;
        },
        Some(i) => i,
    };
    let from: usize = start + open.len();
    proof {
        lemma_find_from(text@, close@, from as int);
    }
    let end = match char_find_from(&v, &close, from) {
        None => {
            return None;
        },
        Some(i) => i,
    };
    let content = trim_text(to_text(&v, from, end).as_str());
    if content.as_str().is_empty() {
        None
    } else {
        Some(content)
    }
}

/// A tag whose only `<` is its first character does not stand across the border to another tag.
proof fn lemma_not_across(s: Seq<char>, tag: Seq<char>, from: int, border: int)
    requires
        tag.len() > 0,
        forall|k: int| 1 <= k < tag.len() ==> #[trigger] tag[k] != '<',
        0 <= from <= border < s.len(),
        s[border] == '<',
        !contains(s.subrange(from, border), tag),
    ensures
        forall|j: int| from <= j < border ==> !#[trigger] occurs_at(s, tag, j),
{
    let part = s.subrange(from, border);
    assert forall|j: int| from <= j < border implies !#[trigger] occurs_at(s, tag, j) by {
        if occurs_at(s, tag, j) {
            if j + tag.len() <= border {
                assert(part.subrange(j - from, j - from + tag.len()) =~= s.subrange(
                    j,
                    j + tag.len(),
                ));
                assert(occurs_at(part, tag, j - from));
            } else {
                assert(s.subrange(j, j + tag.len())[border - j] == s[border]);
            }
        }
    }
}

/// What is put between tags is read back, trimmed, where it is not blank and neither it nor what stands
/// before it holds the tag that is looked for.
pub proof fn tagged_text_is_read_back(
    before: Seq<char>,
    tag: Seq<char>,
    body: Seq<char>,
    after: Seq<char>,
)
    requires
        !tag.contains('<'),
        !contains(before, open_tag(tag)),
        !contains(body, close_tag(tag)),
    ensures
        tag_content(before + open_tag(tag) + body + close_tag(tag) + after, tag) == if trimmed(
            body,
        ).len() == 0 {
            None
        } else {
            Some(trimmed(body))
        },
{
    reveal_strlit("<");
    reveal_strlit("</");
    reveal_strlit(">");
    let open = open_tag(tag);
    let close = close_tag(tag);
    let s = before + open + body + close + after;
    let a = before.len() as int;
    let from = a + open.len();
    let b = from + body.len();
    assert forall|k: int| 1 <= k < open.len() implies #[trigger] open[k] != '<' by {
        if k <= tag.len() {
            assert(open[k] == tag[k - 1]);
            assert(tag.contains(tag[k - 1]));
        }
    }
    assert forall|k: int| 1 <= k < close.len() implies #[trigger] close[k] != '<' by {
        if 2 <= k < tag.len() + 2 {
            assert(close[k] == tag[k - 2]);
            assert(tag.contains(tag[k - 2]));
        }
    }
    assert(s[a] == open[0]);
    assert(s[b] == close[0]);
    assert(s.subrange(0, a) =~= before);
    assert(s.subrange(from, b) =~= body);
    assert(s.subrange(a, a + open.len()) =~= open);
    assert(s.subrange(b, b + close.len()) =~= close);
    lemma_not_across(s, open, 0, a);
    lemma_not_across(s, close, from, b);
    lemma_find_is(s, open, 0, a);
    lemma_find_is(s, close, from, b);
}

/// A memory file that is to be written.
#[derive(Debug)]
pub struct MemoryFileOp {
    /// The file's path below the memory directory.
    pub path: String,
    /// The file's text.
    pub content: String,
}

/// A memory file that is to be written, as plain values.
pub struct MemoryFileOpView {
    pub path: Seq<char>,
    pub content: Seq<char>,
}

impl View for MemoryFileOp {
    type V = MemoryFileOpView;

    open spec fn view(&self) -> MemoryFileOpView {
        MemoryFileOpView { path: self.path@, content: self.content@ }
    }
}

/// The operations as plain values.
pub open spec fn ops_view(v: Seq<MemoryFileOp>) -> Seq<MemoryFileOpView> {
    Seq::new(v.len(), |i: int| v[i]@)
}

/// The path attribute begins at `i`: white space or the quote that ends another attribute stands before
/// it.
pub open spec fn is_path_attribute(s: Seq<char>, i: int) -> bool {
    occurs_at(s, "path=\""@, i) && i > 0 && (is_space(s[i - 1]) || s[i - 1] == '"')
}

/// Where the value of the first path attribute at or after `i` begins, if no `>` stands before it.
pub open spec fn path_value(s: Seq<char>, i: int) -> Option<int>
    decreases s.len() - i,
{
    if i < 0 || i >= s.len() || s[i] == '>' {
        None
    } else if is_path_attribute(s, i) {
        Some(i + 6)
    } else {
        path_value(s, i + 1)
    }
}

/// The same, but for what stands between quotes: a `>` there does not end the tag, and no attribute begins
/// there.
pub open spec fn unquoted_path_value(s: Seq<char>, i: int, quoted: bool) -> Option<int>
    decreases s.len() - i,
{
    if i < 0 || i >= s.len() {
        None
    } else if s[i] == '"' {
        unquoted_path_value(s, i + 1, !quoted)
    } else if quoted {
        unquoted_path_value(s, i + 1, quoted)
    } else if s[i] == '>' {
        None
    } else if is_path_attribute(s, i) {
        Some(i + 6)
    } else {
        unquoted_path_value(s, i + 1, quoted)
    }
}

/// Where the value of the path attribute begins, in the tag at `a`: a `>` stands before it only between
/// quotes.
pub open spec fn own_path_value(s: Seq<char>, a: int) -> Option<int> {
    match path_value(s, a) {
        Some(p) => Some(p),
        None => unquoted_path_value(s, a, false),
    }
}

/// The operation that begins at `a`, where `<write ` stands, and the position behind it: the path is the
/// value of the tag's own path attribute, the tag ends with the first `>` behind that value, and the
/// content stands between it and the `</write>` after it. None where one of these is missing.
pub open spec fn block_at(s: Seq<char>, a: int) -> Option<(MemoryFileOpView, int)> {
    match own_path_value(s, a) {
        None => None,
        Some(p) => match find_from(s, "\""@, p) {
            None => None,
            Some(pe) => match find_from(s, ">"@, pe) {
                None => None,
                Some(g) => match find_from(s, "</write>"@, g + 1) {
                    None => None,
                    Some(ce) => Some(
                        (
                            MemoryFileOpView {
                                path: trimmed(s.subrange(p, pe)),
                                content: trimmed(s.subrange(g + 1, ce)),
                            },
                            ce + 8,
                        ),
                    ),
                },
            },
        },
    }
}

proof fn lemma_path_value(s: Seq<char>, i: int)
    requires
        0 <= i,
    ensures
        match path_value(s, i) {
            Some(p) => i < p <= s.len(),
            None => true,
        },
    decreases s.len() - i,
{
    reveal_markers();
    if i < s.len() {
        lemma_path_value(s, i + 1);
    }
}

proof fn lemma_unquoted_path_value(s: Seq<char>, i: int, quoted: bool)
    requires
        0 <= i,
    ensures
        match unquoted_path_value(s, i, quoted) {
            Some(p) => i < p <= s.len(),
            None => true,
        },
    decreases s.len() - i,
{
    reveal_markers();
    if i < s.len() {
        lemma_unquoted_path_value(s, i + 1, !quoted);
        lemma_unquoted_path_value(s, i + 1, quoted);
    }
}

/// Characters at which no path attribute begins and no tag ends are passed over.
proof fn lemma_path_value_passes(s: Seq<char>, i: int, j: int)
    requires
        0 <= i <= j <= s.len(),
        forall|k: int| i <= k < j ==> #[trigger] s[k] != '>' && s[k] != 'p',
    ensures
        path_value(s, i) == path_value(s, j),
    decreases j - i,
{
    if i < j {
        assert(s[i] != '>');
        reveal_strlit("path=\"");
        assert(!is_path_attribute(s, i)) by {
            if occurs_at(s, "path=\""@, i) {
                assert(s.subrange(i, i + 6)[0] == s[i]);
            }
        }
        lemma_path_value_passes(s, i + 1, j);
    }
}

/// The operations from position `from` on. A tag that is incomplete or has no path is passed over, and so
/// is a whole operation with a blank path.
pub open spec fn ops_from(s: Seq<char>, from: int) -> Seq<MemoryFileOpView>
    decreases s.len() + 1 - from,
    via ops_from_decreases
{
    if from < 0 {
        Seq::empty()
    } else {
        match find_from(s, "<write "@, from) {
            None => Seq::empty(),
            Some(a) => match block_at(s, a) {
                None => ops_from(s, a + 1),
                Some((op, next)) => if op.path.len() > 0 {
                    seq![op] + ops_from(s, next)
                } else {
                    ops_from(s, next)
                },
            },
        }
    }
}

#[via_fn]
proof fn ops_from_decreases(s: Seq<char>, from: int) {
    reveal_markers();
    if from >= 0 {
        lemma_find_from(s, "<write "@, from);
        match find_from(s, "<write "@, from) {
            None => {},
            Some(a) => {
                lemma_path_value(s, a);
                lemma_unquoted_path_value(s, a, false);
                match own_path_value(s, a) {
                    None => {},
                    Some(p) => {
                        lemma_find_from(s, "\""@, p);
                        match find_from(s, "\""@, p) {
                            None => {},
                            Some(pe) => {
                                lemma_find_from(s, ">"@, pe);
                                match find_from(s, ">"@, pe) {
                                    None => {},
                                    Some(g) => {
                                        lemma_find_from(s, "</write>"@, g + 1);
                                    },
                                }
                            },
                        }
                    },
                }
            },
        }
    }
}

proof fn reveal_markers()
    ensures
        "<write "@.len() == 7,
        "path=\""@.len() == 6,
        "\""@.len() == 1,
        ">"@.len() == 1,
        "</write>"@.len() == 8,
{
    reveal_strlit("<write ");
    reveal_strlit("path=\"");
    reveal_strlit("\"");
    reveal_strlit(">");
    reveal_strlit("</write>");
}

fn begins_path_attribute(v: &Vec<char>, i: usize) -> (r: bool)
    requires
        i < v@.len(),
    ensures
        r == is_path_attribute(v@, i as int),
{
    char_occurs_at(v, &to_chars("path=\""), i) && i > 0 && (is_whitespace(v[i - 1]) || v[i - 1]
        == '"')
}

fn find_path_value(v: &Vec<char>, a: usize) -> (r: Option<usize>)
    requires
        a <= v@.len(),
    ensures
        match r {
            Some(p) => path_value(v@, a as int) == Some(p as int) && a < p <= v@.len(),
            None => path_value(v@, a as int) is None,
        },
{
    let mut i: usize = a;
    while i < v.len()
        invariant
            a <= i <= v.len(),
            path_value(v@, i as int) == path_value(v@, a as int),
        decreases v.len() - i,
    {
        if v[i] == '>' {
            return None;
        }
        if begins_path_attribute(v, i) {
            proof {
                reveal_strlit("path=\"");
                assert(i + 6 <= v.len());
            }
            return Some(i + 6);
        }
        i += 1;
    }
    None
}

fn find_unquoted_path_value(v: &Vec<char>, a: usize) -> (r: Option<usize>)
    requires
        a <= v@.len(),
    ensures
        match r {
            Some(p) => unquoted_path_value(v@, a as int, false) == Some(p as int) && a < p
                <= v@.len(),
            None => unquoted_path_value(v@, a as int, false) is None,
        },
{
    let mut i: usize = a;
    let mut quoted = false;
    while i < v.len()
        invariant
            a <= i <= v.len(),
            unquoted_path_value(v@, i as int, quoted) == unquoted_path_value(v@, a as int, false),
        decreases v.len() - i,
    {
        if v[i] == '"' {
            quoted = !quoted;
        } else if !quoted {
            if v[i] == '>' {
                return None;
            }
            if begins_path_attribute(v, i) {
                proof {
                    reveal_strlit("path=\"");
                    assert(i + 6 <= v.len());
                }
                return Some(i + 6);
            }
        }
        i += 1;
    }
    None
}

fn find_own_path_value(v: &Vec<char>, a: usize) -> (r: Option<usize>)
    requires
        a <= v@.len(),
    ensures
        match r {
            Some(p) => own_path_value(v@, a as int) == Some(p as int) && a < p <= v@.len(),
            None => own_path_value(v@, a as int) is None,
        },
{
    match find_path_value(v, a) {
        Some(p) => Some(p),
        None => find_unquoted_path_value(v, a),
    }
}

fn read_block(v: &Vec<char>, a: usize) -> (r: Option<(MemoryFileOp, usize)>)
    requires
        a <= v@.len(),
    ensures
        match r {
            None => block_at(v@, a as int) is None,
            Some((op, next)) => block_at(v@, a as int) == Some((op@, next as int)) && a < next
                <= v@.len(),
        },
{
    proof {
        reveal_markers();
    }
    let p: usize = match find_own_path_value(v, a) {
        None => {
            return None;
        },
        Some(p) => p,
    };
    proof {
        lemma_find_from(v@, "\""@, p as int);
    }
    let pe: usize = match char_find_from(v, &to_chars("\""), p) {
        None => {
            return None;
        },
        Some(i) => i,
    };
    proof {
        lemma_find_from(v@, ">"@, pe as int);
    }
    let end: usize = match char_find_from(v, &to_chars(">"), pe) {
        None => {
            return None;
        },
        Some(i) => i,
    };
    let g: usize = end + 1;
    proof {
        lemma_find_from(v@, "</write>"@, g as int);
    }
    let ce: usize = match char_find_from(v, &to_chars("</write>"), g) {
        None => {
            return None;
        },
        Some(i) => i,
    };
    let path = trim_text(to_text(v, p, pe).as_str());
    let content = trim_text(to_text(v, g, ce).as_str());
    Some((MemoryFileOp { path, content }, ce + 8))
}

/// The `<write path="...">...</write>` blocks of a text, in order.
pub fn extract_write_ops(text: &str) -> (r: Vec<MemoryFileOp>)
    ensures
        ops_view(r@) == ops_from(text@, 0),
{
    let v = to_chars(text);
    let marker = to_chars("<write ");
    let mut out: Vec<MemoryFileOp> = Vec::new();
    let mut from: usize = 0;
    proof {
        assert(ops_view(out@) + ops_from(text@, 0) =~= ops_from(text@, 0));
    }
    loop
        invariant
            v@ == text@,
            marker@ == "<write "@,
            from <= v@.len(),
            ops_view(out@) + ops_from(text@, from as int) == ops_from(text@, 0),
        decreases v@.len() - from,
    {
        proof {
            reveal_markers();
            lemma_find_from(text@, "<write "@, from as int);
        }
        match char_find_from(&v, &marker, from) {
            None => {
                proof {
                    assert(ops_view(out@) + Seq::<MemoryFileOpView>::empty() =~= ops_view(out@));
                }
                return out;
            },
            Some(a) => {
                match read_block(&v, a) {
                    None => {
                        from = a + 1;
                    },
                    Some((op, next)) => {
                        if !op.path.as_str().is_empty() {
                            proof {
                                assert(ops_view(out@.push(op)) =~= ops_view(out@).push(op@));
                                assert(ops_view(out@) + (seq![op@] + ops_from(text@, next as int))
                                    =~= ops_view(out@).push(op@) + ops_from(text@, next as int));
                            }
                            out.push(op);
                        }
                        from = next;
                    },
                }
            },
        }
    }
}

/// The text of the memory section; empty where there is none.
pub open spec fn memory_section(raw: Seq<char>) -> Seq<char> {
    match tag_content(raw, "memory"@) {
        Some(t) => t,
        None => Seq::empty(),
    }
}

/// Reads the model's answer: the recap, and the memory files to write. Every answer can be read.
pub fn parse_compaction_response(raw: &str) -> (r: Result<
    (Option<String>, Vec<MemoryFileOp>),
    CompactionError,
>)
    ensures
        r is Ok,
        option_text(r->Ok_0.0) == tag_content(raw@, "recap"@),
        ops_view(r->Ok_0.1@) == ops_from(memory_section(raw@), 0),
{
    let recap = extract_xml_tag(raw, "recap");
    let memory_block = match extract_xml_tag(raw, "memory") {
        Some(t) => t,
        None => String::new(),
    };
    let ops = extract_write_ops(memory_block.as_str());
    Ok((recap, ops))
}

/// An operation as the model is asked to write it.
pub open spec fn written_op(op: MemoryFileOpView) -> Seq<char> {
    "<write path=\""@ + op.path + "\">"@ + op.content + "</write>"@
}

/// Operations one after the other.
pub open spec fn written_ops(ops: Seq<MemoryFileOpView>) -> Seq<char>
    decreases ops.len(),
{
    if ops.len() == 0 {
        Seq::empty()
    } else {
        written_ops(ops.drop_last()) + written_op(ops.last())
    }
}

/// An operation that its written form can carry: the path is not empty and holds no quote, the content does
/// not hold the closing tag, and neither begins or ends with white space.
pub open spec fn can_be_written(op: MemoryFileOpView) -> bool {
    &&& op.path.len() > 0
    &&& trimmed(op.path) == op.path
    &&& !op.path.contains('"')
    &&& trimmed(op.content) == op.content
    &&& !contains(op.content, "</write>"@)
}

proof fn lemma_block_is_read(s: Seq<char>, a: int, op: MemoryFileOpView)
    requires
        occurs_at(s, written_op(op), a),
        can_be_written(op),
    ensures
        find_from(s, "<write "@, a) == Some(a),
        block_at(s, a) == Some((op, (a + written_op(op).len()) as int)),
{
    reveal_markers();
    reveal_strlit("<write path=\"");
    reveal_strlit("\">");
    reveal_strlit("<write ");
    reveal_strlit("path=\"");
    reveal_strlit("\"");
    reveal_strlit(">");
    reveal_strlit("</write>");
    let w = written_op(op);
    let n = op.path.len() as int;
    let m = op.content.len() as int;
    assert(w.len() == 13 + n + 2 + m + 8);
    assert forall|k: int| 0 <= k < w.len() implies #[trigger] s[a + k] == w[k] by {
        assert(s.subrange(a, a + w.len())[k] == s[a + k]);
    }
    let ps = a + 13;
    let pe = ps + n;
    let g = pe + 1;
    let cs = g + 1;
    let ce = cs + m;
    assert forall|k: int| 0 <= k < 13 implies #[trigger] s[a + k] == "<write path=\""@[k] by {
        assert(w[k] == "<write path=\""@[k]);
    }
    assert forall|k: int| 0 <= k < n implies #[trigger] s[ps + k] == op.path[k] by {
        assert(s[a + (13 + k)] == w[13 + k]);
    }
    assert(s[pe] == '"') by {
        assert(s[a + (13 + n)] == w[13 + n]);
    }
    assert(s[g] == '>') by {
        assert(s[a + (14 + n)] == w[14 + n]);
    }
    assert forall|k: int| 0 <= k < m implies #[trigger] s[cs + k] == op.content[k] by {
        assert(s[a + (15 + n + k)] == w[15 + n + k]);
    }
    assert forall|k: int| 0 <= k < 8 implies #[trigger] s[ce + k] == "</write>"@[k] by {
        assert(s[a + (15 + n + m + k)] == w[15 + n + m + k]);
    }
    assert(s[a + 0] == '<' && s[a + 1] == 'w' && s[a + 2] == 'r' && s[a + 3] == 'i' && s[a + 4]
        == 't' && s[a + 5] == 'e' && s[a + 6] == ' ' && s[a + 7] == 'p' && s[a + 8] == 'a' && s[a
        + 9] == 't' && s[a + 10] == 'h' && s[a + 11] == '=' && s[a + 12] == '"');
    assert(s.subrange(a, a + 7) =~= "<write "@);
    lemma_find_is(s, "<write "@, a, a);
    // The path attribute follows the tag name.
    assert(s.subrange(a + 7, a + 13) =~= "path=\""@);
    assert forall|k: int| a <= k < a + 7 implies #[trigger] s[k] != '>' && s[k] != 'p' by {
        assert(s[a + (k - a)] == s[k]);
    }
    lemma_path_value_passes(s, a, a + 7);
    assert(is_path_attribute(s, a + 7));
    assert(own_path_value(s, a) == Some(ps));
    // The path ends at the first quote.
    assert(s.subrange(pe, pe + 1) =~= "\""@);
    assert forall|j: int| ps <= j < pe implies !#[trigger] occurs_at(s, "\""@, j) by {
        if occurs_at(s, "\""@, j) {
            assert(s.subrange(j, j + 1)[0] == s[j]);
            assert(s[ps + (j - ps)] == op.path[j - ps]);
            assert(op.path.contains('"'));
        }
    }
    lemma_find_is(s, "\""@, ps, pe);
    // The tag ends behind it.
    assert(s.subrange(g, g + 1) =~= ">"@);
    assert forall|j: int| pe <= j < g implies !#[trigger] occurs_at(s, ">"@, j) by {
        if occurs_at(s, ">"@, j) {
            assert(s.subrange(j, j + 1)[0] == s[j]);
        }
    }
    lemma_find_is(s, ">"@, pe, g);
    // The content ends at the first closing tag.
    assert(s.subrange(ce, ce + 8) =~= "</write>"@) by {
        assert forall|k: int| 0 <= k < 8 implies s.subrange(ce, ce + 8)[k] == "</write>"@[k] by {
            assert(s[ce + k] == "</write>"@[k]);
        }
    }
    assert forall|j: int| cs <= j < ce implies !#[trigger] occurs_at(s, "</write>"@, j) by {
        if occurs_at(s, "</write>"@, j) {
            assert forall|k: int| 0 <= k < 8 implies #[trigger] s[j + k] == "</write>"@[k] by {
                assert(s.subrange(j, j + 8)[k] == s[j + k]);
            }
            if j + 8 <= ce {
                let c = j - cs;
                assert(op.content.subrange(c, c + 8) =~= "</write>"@) by {
                    assert forall|k: int| 0 <= k < 8 implies op.content.subrange(c, c + 8)[k]
                        == "</write>"@[k] by {
                        assert(s[cs + (c + k)] == op.content[c + k]);
                        assert(s[j + k] == "</write>"@[k]);
                    }
                }
                assert(occurs_at(op.content, "</write>"@, c));
            } else {
                let k = ce - j;
                assert(s[j + k] == "</write>"@[k]);
                assert(s[ce + 0] == "</write>"@[0]);
            }
        }
    }
    lemma_find_is(s, "</write>"@, cs, ce);
    assert(s.subrange(ps, pe) =~= op.path) by {
        assert forall|k: int| 0 <= k < n implies s.subrange(ps, pe)[k] == op.path[k] by {
            assert(s[ps + k] == op.path[k]);
        }
    }
    assert(s.subrange(cs, ce) =~= op.content) by {
        assert forall|k: int| 0 <= k < m implies s.subrange(cs, ce)[k] == op.content[k] by {
            assert(s[cs + k] == op.content[k]);
        }
    }
}

proof fn lemma_written_prefix(ops: Seq<MemoryFileOpView>, k: int)
    requires
        0 <= k < ops.len(),
    ensures
        occurs_at(written_ops(ops), written_op(ops[k]), written_ops(ops.take(k)).len() as int),
        written_ops(ops.take(k + 1)).len() == written_ops(ops.take(k)).len() + written_op(
            ops[k],
        ).len(),
    decreases ops.len(),
{
    assert(ops.take(k + 1).drop_last() =~= ops.take(k));
    let t = ops.drop_last();
    let s = written_ops(ops);
    if k == ops.len() - 1 {
        assert(ops.take(k) =~= t);
        let i = written_ops(t).len() as int;
        assert(s.subrange(i, i + written_op(ops[k]).len()) =~= written_op(ops[k]));
    } else {
        lemma_written_prefix(t, k);
        assert(t.take(k) =~= ops.take(k));
        let i = written_ops(ops.take(k)).len() as int;
        let w = written_op(ops[k]);
        assert(s.subrange(i, i + w.len()) =~= written_ops(t).subrange(i, i + w.len()));
    }
}

proof fn lemma_ops_are_read(ops: Seq<MemoryFileOpView>, k: int)
    requires
        0 <= k <= ops.len(),
        forall|i: int| 0 <= i < ops.len() ==> can_be_written(#[trigger] ops[i]),
    ensures
        ops_from(written_ops(ops), written_ops(ops.take(k)).len() as int) == ops.skip(k),
    decreases ops.len() - k,
{
    let s = written_ops(ops);
    let from = written_ops(ops.take(k)).len() as int;
    reveal_markers();
    if k < ops.len() {
        lemma_written_prefix(ops, k);
        lemma_block_is_read(s, from, ops[k]);
        lemma_ops_are_read(ops, k + 1);
        assert(ops.skip(k) =~= seq![ops[k]] + ops.skip(k + 1));
    } else {
        assert(ops.take(k) =~= ops);
        assert(ops.skip(k) =~= Seq::<MemoryFileOpView>::empty());
    }
}

/// Operations that are written one after the other are read back as they were, in order.
pub proof fn written_operations_are_read_back(ops: Seq<MemoryFileOpView>)
    requires
        forall|i: int| 0 <= i < ops.len() ==> can_be_written(#[trigger] ops[i]),
    ensures
        ops_from(written_ops(ops), 0) == ops,
{
    lemma_ops_are_read(ops, 0);
    assert(ops.take(0) =~= Seq::<MemoryFileOpView>::empty());
    assert(ops.skip(0) =~= ops);
}

/// What is read of a block stands between its tags, and is read without the white space around it.
pub proof fn blocks_are_read_without_the_space_around(s: Seq<char>, a: int)
    requires
        block_at(s, a) is Some,
    ensures
        ({
            let (op, end) = block_at(s, a)->Some_0;
            &&& trimmed(op.path) == op.path
            &&& trimmed(op.content) == op.content
            &&& occurs_at(s, "</write>"@, end - 8)
            &&& exists|p: int, q: int|
                0 <= p <= q <= end - 8 && op.content == trimmed(#[trigger] s.subrange(p, q)) && q == end - 8
        }),
{
    reveal_markers();
    let p = own_path_value(s, a)->Some_0;
    let pe = find_from(s, "\""@, p)->Some_0;
    let g = find_from(s, ">"@, pe)->Some_0;
    let ce = find_from(s, "</write>"@, g + 1)->Some_0;
    trimming_is_idempotent(s.subrange(p, pe));
    trimming_is_idempotent(s.subrange(g + 1, ce));
    lemma_find_from(s, "\""@, p);
    lemma_find_from(s, ">"@, pe);
    lemma_find_from(s, "</write>"@, g + 1);
}

proof fn lemma_path_value_reaches(s: Seq<char>, i: int, j: int)
    requires
        0 <= i <= j < s.len(),
        is_path_attribute(s, j),
        forall|k: int| i <= k < j ==> !#[trigger] occurs_at(s, "path=\""@, k),
    ensures
        path_value(s, i) is Some ==> path_value(s, i) == Some(j + 6),
    decreases j - i,
{
    if i < j {
        assert(!occurs_at(s, "path=\""@, i));
        lemma_path_value_reaches(s, i + 1, j);
    }
}

proof fn lemma_unquoted_reaches(s: Seq<char>, i: int, q1: int, q2: int, j: int)
    requires
        0 <= q1 < q2 < j < s.len(),
        0 <= i <= j,
        is_path_attribute(s, j),
        forall|k: int| i <= k < j ==> !#[trigger] occurs_at(s, "path=\""@, k),
        forall|k: int| i <= k < j ==> (#[trigger] s[k] == '"' <==> (k == q1 || k == q2)),
        forall|k: int| i <= k < j && (k < q1 || k > q2) ==> #[trigger] s[k] != '>',
    ensures
        unquoted_path_value(s, i, q1 < i <= q2) == Some(j + 6),
    decreases j - i,
{
    reveal_strlit("path=\"");
    if i < j {
        assert(!occurs_at(s, "path=\""@, i));
        assert(s[i] == '"' <==> (i == q1 || i == q2));
        lemma_unquoted_reaches(s, i + 1, q1, q2, j);
    } else {
        assert(s.subrange(j, j + 6)[0] == s[j]);
    }
}

/// A `>` inside the quotes of another attribute does not end the tag: the path behind it is found.
pub proof fn quoted_marks_do_not_end_the_tag(s: Seq<char>, a: int, q1: int, q2: int, j: int)
    requires
        0 <= a <= q1 < q2 < j < s.len(),
        occurs_at(s, "path=\""@, j),
        is_space(s[j - 1]),
        forall|k: int| a <= k < j ==> !#[trigger] occurs_at(s, "path=\""@, k),
        forall|k: int| a <= k < j ==> (#[trigger] s[k] == '"' <==> (k == q1 || k == q2)),
        forall|k: int| a <= k < j && (k < q1 || k > q2) ==> #[trigger] s[k] != '>',
    ensures
        own_path_value(s, a) == Some(j + 6),
{
    lemma_path_value_reaches(s, a, j);
    lemma_unquoted_reaches(s, a, q1, q2, j);
}

}
