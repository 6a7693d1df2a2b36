//! The prompt by which a model is asked to refine entries.
use crate::memory::db::Entry;
use crate::text::compose::{cat2, cat3, cat4, same_text};
use crate::text::search::{replace_all, replace_text};
use vstd::prelude::*;
use vstd::string::*;

verus! {

broadcast use vstd::string::group_string_axioms;

/// The default template.
pub const DEFAULT_REFINE_PROMPT: &'static str = "You are maintaining a memory database for an AI character chat system.

User: {{user}}
Character: {{char}}

{{definitions}}
## Your goal

Produce clean, well-tagged memory entries. Each entry should be atomic — focused on one specific event, person, preference, attribute, or relationship. Entries should be descriptive and tagged accurately.

## What you can do

For the CANDIDATE entries below, you may:
- **merge**: Combine 2+ candidate entries about the same topic into one consolidated entry. Prefer the most recent information as canonical, but preserve important historical context.
- **split**: Break one unfocused candidate entry into multiple atomic entries. Every piece of information from the original must appear in exactly one output.
- **update**: Rewrite a candidate entry's summary or tags for clarity, specificity, or accuracy without changing its scope.
- **keep** (default): If a candidate entry is already good, do nothing — omit it from your response.

## Rules

- You may ONLY act on entries marked [CANDIDATE]. Entries marked [CONTEXT] are reference only.
- When merging, prefer the more recent entry if entries conflict. If one explicitly corrects another, use the correction. If the conflict reflects genuine change over time, preserve both with temporal framing.
- Do not fabricate or infer anything not present in the source entries.
- Preserve entity names exactly as they appear. Do NOT rename, normalize, or merge entity names.
- Each output entry needs: summary_text, topic_tags (comma-separated), topic_key (single category), confidence (0.0-1.0).
- A merge must reference at least 2 source entry IDs.
- When splitting, every fact from the original must appear in exactly one output entry.

## Response format

Respond with ONLY a JSON object. Include ONLY entries that need changes.

{\"actions\":[
  {\"action\":\"merge\",\"source_entry_ids\":[\"id1\",\"id2\"],\"result\":{\"summary_text\":\"...\",\"topic_tags\":\"...\",\"topic_key\":\"...\",\"confidence\":0.9},\"reason\":\"why\"},
  {\"action\":\"split\",\"source_entry_id\":\"id1\",\"results\":[{\"summary_text\":\"...\",\"topic_tags\":\"...\",\"topic_key\":\"...\",\"confidence\":0.85}],\"reason\":\"why\"},
  {\"action\":\"update\",\"entry_id\":\"id1\",\"result\":{\"summary_text\":\"...\",\"topic_tags\":\"...\",\"topic_key\":\"...\",\"confidence\":0.9},\"reason\":\"why\"}
]}

If no changes are needed, return {\"actions\":[]}.

## Entries

### Candidates (you may modify these):
{{candidates}}

### Context (reference only, do NOT modify):
{{context}}";

/// An entry with its confidence as it is shown, with two decimals.
#[derive(Debug)]
pub struct PromptEntry {
    /// The entry.
    pub entry: Entry,
    /// Its confidence.
    pub confidence_text: String,
}

/// The time span of an entry as it is shown.
pub open spec fn time_part(start: Seq<char>, end: Seq<char>) -> Seq<char> {
    if start.len() == 0 {
        Seq::empty()
    } else if end.len() > 0 && end != start {
        " | Time: "@ + start + ".."@ + end
    } else {
        " | Time: "@ + start
    }
}

/// An entry as it is shown, under a label.
pub open spec fn entry_block(p: PromptEntry, label: Seq<char>) -> Seq<char> {
    label + " ID: "@ + p.entry.id@ + " | Tags: "@ + p.entry.topic_tags@ + " | Key: "@
        + p.entry.topic_key@ + " | Confidence: "@ + p.confidence_text@ + time_part(
        p.entry.start_timestamp@,
        p.entry.end_timestamp@,
    ) + "\n  "@ + p.entry.summary_text@
}

/// Entries as they are shown, each followed by a line feed.
pub open spec fn entry_blocks(s: Seq<PromptEntry>, label: Seq<char>) -> Seq<char>
    decreases s.len(),
{
    if s.len() == 0 {
        Seq::empty()
    } else {
        entry_blocks(s.drop_last(), label) + entry_block(s.last(), label) + "\n"@
    }
}

/// The value of a template variable; none where it is missing or empty.
pub open spec fn filled_var(vars: Seq<(String, String)>, key: Seq<char>) -> Option<Seq<char>>
    decreases vars.len(),
{
    if vars.len() == 0 {
        None
    } else if vars[0].0@ == key {
        if vars[0].1@.len() > 0 {
            Some(vars[0].1@)
        } else {
            None
        }
    } else {
        filled_var(vars.skip(1), key)
    }
}

/// A section with a heading, where there is something to say.
pub open spec fn section(heading: Seq<char>, text: Option<Seq<char>>) -> Seq<char> {
    match text {
        Some(t) => heading + t + "\n\n"@,
        None => Seq::empty(),
    }
}

/// The definitions of character and user.
pub open spec fn definitions(vars: Seq<(String, String)>) -> Seq<char> {
    section("## Character definition\n"@, filled_var(vars, "char_description"@)) + section(
        "## User definition\n"@,
        filled_var(vars, "user_description"@),
    )
}

/// The text with every variable filled in, one after the other.
pub open spec fn with_vars(text: Seq<char>, vars: Seq<(String, String)>) -> Seq<char>
    decreases vars.len(),
{
    if vars.len() == 0 {
        text
    } else {
        replace_all(
            with_vars(text, vars.drop_last()),
            "{{"@ + vars.last().0@ + "}}"@,
            vars.last().1@,
        )
    }
}

/// The prompt for the candidates and the context.
pub open spec fn refine_prompt(
    template: Seq<char>,
    candidates: Seq<PromptEntry>,
    context: Seq<PromptEntry>,
    vars: Seq<(String, String)>,
) -> Seq<char> {
    let a = replace_all(template, "{{definitions}}"@, definitions(vars));
    let b = replace_all(a, "{{candidates}}"@, entry_blocks(candidates, "[CANDIDATE]"@));
    let c = replace_all(b, "{{context}}"@, entry_blocks(context, "[CONTEXT]"@));
    with_vars(c, vars)
}

fn format_entry(p: &PromptEntry, label: &str) -> (r: String)
    ensures
        r@ == entry_block(*p, label@),
{
    let e = &p.entry;
    let a = cat4(label, " ID: ", e.id.as_str(), " | Tags: ");
    let b = cat4(a.as_str(), e.topic_tags.as_str(), " | Key: ", e.topic_key.as_str());
    let mut line = cat3(b.as_str(), " | Confidence: ", p.confidence_text.as_str());
    let time = if e.start_timestamp.as_str().is_empty() {
        String::new()
    } else if !e.end_timestamp.as_str().is_empty() && !same_text(
        e.end_timestamp.as_str(),
        e.start_timestamp.as_str(),
    ) {
        cat4(" | Time: ", e.start_timestamp.as_str(), "..", e.end_timestamp.as_str())
    } else {
        cat2(" | Time: ", e.start_timestamp.as_str())
    };
    line.append(time.as_str());
    line.append("\n  ");
    line.append(e.summary_text.as_str());
    line
}

fn format_entries(entries: &Vec<PromptEntry>, label: &str) -> (r: String)
    ensures
        r@ == entry_blocks(entries@, label@),
{
    let mut out = String::new();
    let mut i: usize = 0;
    proof {
        assert(entries@.take(0) =~= Seq::<PromptEntry>::empty());
    }
    while i < entries.len()
        invariant
            i <= entries.len(),
            out@ == entry_blocks(entries@.take(i as int), label@),
        decreases entries.len() - i,
    {
        proof {
            assert(entries@.take(i + 1).drop_last() =~= entries@.take(i as int));
        }
        let block = format_entry(&entries[i], label);
        out.append(block.as_str());
        out.append("\n");
        i += 1;
    }
    proof {
        assert(entries@.take(i as int) =~= entries@);
    }
    out
}

fn section_for(heading: &str, vars: &Vec<(String, String)>, key: &str) -> (r: String)
    ensures
        r@ == section(heading@, filled_var(vars@, key@)),
{
    let mut i: usize = 0;
    proof {
        assert(vars@.skip(0) =~= vars@);
    }
    while i < vars.len()
        invariant
            i <= vars.len(),
            filled_var(vars@.skip(i as int), key@) == filled_var(vars@, key@),
        decreases vars.len() - i,
    {
        proof {
            assert(vars@.skip(i as int).skip(1) =~= vars@.skip(i + 1));
        }
        if same_text(vars[i].0.as_str(), key) {
            if vars[i].1.as_str().is_empty() {
                return String::new();
            }
            return cat3(heading, vars[i].1.as_str(), "\n\n");
        }
        i += 1;
    }
    String::new()
}

/// The prompt for the candidates and the context, with the template variables filled in.
pub fn build_refine_prompt(
    template: &str,
    candidates: &Vec<PromptEntry>,
    context: &Vec<PromptEntry>,
    vars: &Vec<(String, String)>,
) -> (r: String)
    ensures
        r@ == refine_prompt(template@, candidates@, context@, vars@),
{
    let chars = section_for("## Character definition\n", vars, "char_description");
    let users = section_for("## User definition\n", vars, "user_description");
    let defs = cat2(chars.as_str(), users.as_str());
    let cand_text = format_entries(candidates, "[CANDIDATE]");
    let ctx_text = format_entries(context, "[CONTEXT]");
    proof {
        reveal_strlit("{{definitions}}");
        reveal_strlit("{{candidates}}");
        reveal_strlit("{{context}}");
        reveal_strlit("{{");
    }
    let a = replace_text(template, "{{definitions}}", defs.as_str());
    let b = replace_text(a.as_str(), "{{candidates}}", cand_text.as_str());
    let mut result = replace_text(b.as_str(), "{{context}}", ctx_text.as_str());
    let ghost base = result@;
    let mut i: usize = 0;
    proof {
        assert(vars@.take(0) =~= Seq::<(String, String)>::empty());
    }
    while i < vars.len()
        invariant
            i <= vars.len(),
            "{{"@.len() == 2,
            result@ == with_vars(base, vars@.take(i as int)),
        decreases vars.len() - i,
    {
        proof {
            assert(vars@.take(i + 1).drop_last() =~= vars@.take(i as int));
        }
        let tag = cat3("{{", vars[i].0.as_str(), "}}");
        result = replace_text(result.as_str(), tag.as_str(), vars[i].1.as_str());
        i += 1;
    }
    proof {
        assert(vars@.take(i as int) =~= vars@);
    }
    result
}

}
