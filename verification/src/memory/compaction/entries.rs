//! Reading the memory entries that the model writes in answer to the entry prompt.
use crate::memory::compaction::parser::{extract_xml_tag, tag_content};
use crate::memory::compaction::types::{
    compacted_view, CompactedEntry, CompactedEntryView, CompactionError,
};
use crate::text::chars::{to_chars, to_text};
use crate::text::compose::{cat3, option_text};
use crate::text::search::{char_find_from, find_from, lemma_find_from, replace_all, replace_text};
use crate::text::split::{lemma_pieces_nonempty, lemma_texts_push, pieces, split_text, texts};
use crate::text::trim::{lowercase, to_lowercase, trim_text, trimmed, CharClass};
use vstd::prelude::*;

verus! {

broadcast use vstd::string::group_string_axioms;

/// The default prompt template for memory entries.
pub const DEFAULT_ENTRY_PROMPT: &'static str = "You are recording what happened in this specific conversation between {{user}} and {{char}}. Write temporal, narrative entries — events, decisions, what was said, emotional shifts — anchored to this conversation. Do not extract timeless facts or stable preferences; those are handled separately.

Preserve:
- Key events and decisions made in this conversation
- Emotional developments and relationship changes
- Ongoing threads or unresolved topics
- Specific details that would be important to remember later
- If {{user}} corrected or updated previously stated information, note the change explicitly

Your response MUST contain two parts, in this order:

1. A single <recap> block — a flowing narrative (2-4 paragraphs) written **about {{char}} in close third person, using {{char}}'s own voice and vocabulary** — not \"I\" but \"{{char}}\" / \"she\" / \"he\" / \"they\". Same emotional texture, same interpretive lens, third-person pronouns. Cover what happened, how {{char}} felt about it, what matters to them, and where things stand with {{user}}.

{{#if recap}}
Here is the existing recap from previous compactions. Fold it into your new recap — preserve ongoing threads and relationship developments while incorporating new events. Older details should condense naturally but never disappear entirely:
<previous_recap>
{{recap}}
</previous_recap>
{{/if}}

<recap>
[rolling narrative recap, close third person about {{char}}]
</recap>

2. One or more <entry> blocks (one per topic discussed).

Each entry should be **atomic** — focused on exactly one topic or event. Prefer more entries with fewer bullets (2-4 each) over fewer entries with many bullets. If your bullets cover different subjects, split them into separate entries. Each entry is embedded as a single vector for retrieval, so mixing unrelated topics in one entry makes it harder to find later.

Both parts are required. Begin with the <recap>, then the <entry> blocks.

<entry>
<summary>
- [key fact or event, one per line]
- [preserve names, dates, specifics]
- [include emotional context where relevant]
</summary>
<topic_tags>
[comma separated short tags for this topic]
</topic_tags>
<entities>
- name: [entity name], type: [person/place/organization/concept], relation: [brief description of relation to the conversation]
</entities>
<memory_type>
[episodic or semantic — \"episodic\" for events, conversations, time-bound happenings; \"semantic\" for stable facts, preferences, traits, relationships]
</memory_type>
</entry>

If the entire conversation covers only one topic, produce a single <entry> block.

Conversation:
{{conversation}}";

/// The bits of the double nearest to nine tenths, the confidence of a new entry.
pub const NEW_ENTRY_CONFIDENCE_BITS: u64 = 0x3FEC_CCCC_CCCC_CCCD;

/// The trimmed contents between the tags from position `from` on, blank ones left out. The search ends
/// at an opening tag that is not closed.
pub open spec fn contents_from(s: Seq<char>, open: Seq<char>, close: Seq<char>, from: int) -> Seq<
    Seq<char>,
>
    decreases s.len() + 1 - from,
    via contents_from_decreases
{
    if from < 0 || open.len() == 0 {
        Seq::empty()
    } else {
        match find_from(s, open, from) {
            None => Seq::empty(),
            Some(a) => {
                let start = (a + open.len()) as int;
                match find_from(s, close, start) {
                    None => Seq::empty(),
                    Some(e) => {
                        let content = trimmed(s.subrange(start, e));
                        let rest = contents_from(s, open, close, (e + close.len()) as int);
                        if content.len() > 0 {
                            seq![content] + rest
                        } else {
                            rest
                        }
                    },
                }
            },
        }
    }
}

#[via_fn]
proof fn contents_from_decreases(s: Seq<char>, open: Seq<char>, close: Seq<char>, from: int) {
    if from >= 0 && open.len() > 0 {
        lemma_find_from(s, open, from);
        match find_from(s, open, from) {
            None => {},
            Some(a) => {
                lemma_find_from(s, close, (a + open.len()) as int);
            },
        }
    }
}

/// The trimmed contents of all `<tag>...</tag>` pairs.
pub open spec fn tag_contents(text: Seq<char>, tag: Seq<char>) -> Seq<Seq<char>> {
    contents_from(text, "<"@ + tag + ">"@, "</"@ + tag + ">"@, 0)
}

/// The trimmed contents of all `<tag>...</tag>` pairs, blank ones left out.
pub fn extract_all_xml_tags(text: &str, tag: &str) -> (r: Vec<String>)
    ensures
        texts(r@) == tag_contents(text@, tag@),
{
    let v = to_chars(text);
    let open = to_chars(cat3("<", tag, ">").as_str());
    let close = to_chars(cat3("</", tag, ">").as_str());
    let ghost all = tag_contents(text@, tag@);
    let mut out: Vec<String> = Vec::new();
    let mut from: usize = 0;
    proof {
        reveal_strlit("<");
        assert(texts(out@) + all =~= all);
    }
    loop
        invariant
            v@ == text@,
            open@ == "<"@ + tag@ + ">"@,
            close@ == "</"@ + tag@ + ">"@,
            open@.len() > 0,
            from <= v.len(),
            all == tag_contents(text@, tag@),
            texts(out@) + contents_from(text@, open@, close@, from as int) == all,
        decreases v.len() - from,
    {
        proof {
            lemma_find_from(text@, open@, from as int);
        }
        let start: usize = match char_find_from(&v, &open, from) {
            None => {
                proof {
                    assert(texts(out@) + Seq::<Seq<char>>::empty() =~= texts(out@));
                }
                return out;
            },
            Some(a) => a + open.len(),
        };
        proof {
            lemma_find_from(text@, close@, start as int);
        }
        let end: usize = match char_find_from(&v, &close, start) {
            None => {
                proof {
                    assert(texts(out@) + Seq::<Seq<char>>::empty() =~= texts(out@));
                }
                return out;
            },
            Some(e) => e,
        };
        let next: usize = end + close.len();
        let content = trim_text(to_text(&v, start, end).as_str());
        if !content.as_str().is_empty() {
            proof {
                lemma_texts_push(out@, content);
                assert(texts(out@) + (seq![content@] + contents_from(
                    text@,
                    open@,
                    close@,
                    next as int,
                )) =~= texts(out@).push(content@) + contents_from(
                    text@,
                    open@,
                    close@,
                    next as int,
                ));
            }
            out.push(content);
        }
        from = next;
    }
}

/// A text, or a default where there is none.
pub open spec fn text_or(t: Option<Seq<char>>, default: Seq<char>) -> Seq<char> {
    match t {
        Some(s) => s,
        None => default,
    }
}

/// The topic key of a list of tags: its first tag, trimmed, in lower case, with underscores for blanks.
pub open spec fn first_tag_key(tags: Seq<char>) -> Seq<char> {
    replace_all(lowercase(trimmed(pieces(tags, CharClass::One(','))[0])), " "@, "_"@)
}

/// The entry that a block describes.
pub open spec fn entry_of_block(block: Seq<char>) -> CompactedEntryView {
    let tags = text_or(tag_content(block, "topic_tags"@), Seq::empty());
    CompactedEntryView {
        memory_type: trimmed(text_or(tag_content(block, "memory_type"@), "episodic"@)),
        summary_text: text_or(tag_content(block, "summary"@), Seq::empty()),
        topic_tags: tags,
        topic_key: first_tag_key(tags),
        confidence_bits: NEW_ENTRY_CONFIDENCE_BITS,
    }
}

fn read_entry(block: &str) -> (r: CompactedEntry)
    ensures
        r@ == entry_of_block(block@),
{
    let summary_text = match extract_xml_tag(block, "summary") {
        Some(t) => t,
        None => String::new(),
    };
    let topic_tags = match extract_xml_tag(block, "topic_tags") {
        Some(t) => t,
        None => String::new(),
    };
    let memory_type = match extract_xml_tag(block, "memory_type") {
        Some(t) => t,
        None => "episodic".to_owned(),
    };
    let parts = split_text(topic_tags.as_str(), CharClass::One(','));
    proof {
        reveal_strlit(" ");
        lemma_pieces_nonempty(topic_tags@, CharClass::One(','));
        assert(texts(parts@).len() == parts@.len());
        assert(texts(parts@)[0] == parts@[0]@);
    }
    let first = to_lowercase(trim_text(parts[0].as_str()).as_str());
    let topic_key = replace_text(first.as_str(), " ", "_");
    CompactedEntry {
        memory_type: trim_text(memory_type.as_str()),
        summary_text,
        topic_tags,
        topic_key,
        confidence_bits: NEW_ENTRY_CONFIDENCE_BITS,
    }
}

/// The entries that the blocks describe.
pub open spec fn entries_of_blocks(blocks: Seq<Seq<char>>) -> Seq<CompactedEntryView> {
    Seq::new(blocks.len(), |i: int| entry_of_block(blocks[i]))
}

/// Reads the model's answer: the recap, and one entry for each `<entry>` block. An answer without such
/// a block is an error.
pub fn parse_compaction_response(raw: &str) -> (r: Result<
    (Option<String>, Vec<CompactedEntry>),
    CompactionError,
>)
    ensures
        match r {
            Ok((recap, entries)) => {
                &&& tag_contents(raw@, "entry"@).len() > 0
                &&& option_text(recap) == tag_content(raw@, "recap"@)
                &&& compacted_view(entries@) == entries_of_blocks(tag_contents(raw@, "entry"@))
            },
            Err(e) => {
                &&& tag_contents(raw@, "entry"@).len() == 0
                &&& e is Parse
                &&& e->Parse_0@ == "no <entry> blocks found in LLM response"@
            },
        },
{
    let recap = extract_xml_tag(raw, "recap");
    let blocks = extract_all_xml_tags(raw, "entry");
    let ghost all = texts(blocks@);
    proof {
        assert(all.len() == blocks@.len());
    }
    if blocks.len() == 0 {
        return Err(CompactionError::Parse("no <entry> blocks found in LLM response".to_owned()));
    }
    let mut entries: Vec<CompactedEntry> = Vec::new();
    let mut i: usize = 0;
    while i < blocks.len()
        invariant
            i <= blocks.len(),
            all == texts(blocks@),
            entries.len() == i,
            forall|k: int| 0 <= k < i ==> #[trigger] entries@[k]@ == entry_of_block(all[k]),
        decreases blocks.len() - i,
    {
        entries.push(read_entry(blocks[i].as_str()));
        i += 1;
    }
    assert(compacted_view(entries@) =~= entries_of_blocks(all));
    Ok((recap, entries))
}

}
