//! The tools that the memory agent offers to the model.
use crate::text::compose::{option_text, same_text};
use crate::text::split::texts;
use vstd::prelude::*;

verus! {

broadcast use vstd::string::group_string_axioms;

/// What `search_entries` does.
pub const SEARCH_ENTRIES_DESCRIPTION: &'static str = "Full-text search over memory entries. Uses stemming and relevance ranking — much better than SQL LIKE for finding entries by content, topic, or person. Returns up to 20 results ranked by relevance.";

/// The query of `search_entries`.
pub const SEARCH_QUERY_DESCRIPTION: &'static str = "Search terms. Supports words, \"quoted phrases\", and boolean operators (AND, OR, NOT). Examples: 'Sam Okafor', '\"golden retriever\"', 'climbing NOT gym'.";

/// The status filter of `search_entries`.
pub const SEARCH_STATUS_DESCRIPTION: &'static str = "Filter by entry status. Default: 'active'. Use 'all' to search all statuses.";

/// What `query_db` does.
pub const QUERY_DB_DESCRIPTION: &'static str = "Run a read-only SQL SELECT query against the memory database. Maximum 50 rows returned. Use search_entries instead for keyword/content search — this is for structured queries (counts, date ranges, joins, aggregations).";

/// What `merge_entity` does.
pub const MERGE_ENTITY_DESCRIPTION: &'static str = "Merge a deprecated/duplicate entity into a canonical one. Re-links all entry associations from the source entity to the target, then removes the old links.";

/// The tool changes the memory and needs confirmation in interactive mode.
pub open spec fn is_write_name(name: Seq<char>) -> bool {
    ||| name == "update_entry"@
    ||| name == "supersede_entry"@
    ||| name == "create_entry"@
    ||| name == "update_entity"@
    ||| name == "create_flag"@
    ||| name == "merge_entity"@
    ||| name == "resolve_flag"@
}

/// Whether the tool changes the memory.
pub fn is_write_tool(name: &str) -> (r: bool)
    ensures
        r == is_write_name(name@),
{
    same_text(name, "update_entry") || same_text(name, "supersede_entry") || same_text(
        name,
        "create_entry",
    ) || same_text(name, "update_entity") || same_text(name, "create_flag") || same_text(
        name,
        "merge_entity",
    ) || same_text(name, "resolve_flag")
}

/// One argument of a tool.
#[derive(Debug)]
pub struct ToolProperty {
    /// The argument's name.
    pub name: String,
    /// Its JSON type.
    pub kind: String,
    /// What it means, where that is said.
    pub description: Option<String>,
    /// The values it may have; empty where any will do.
    pub choices: Vec<String>,
}

/// One tool as offered to the model.
#[derive(Debug)]
pub struct ToolDefinition {
    /// The tool's name.
    pub name: String,
    /// What it does.
    pub description: String,
    /// Its arguments.
    pub properties: Vec<ToolProperty>,
    /// The arguments that must be given.
    pub required: Vec<String>,
}

/// An argument as plain values.
pub struct ToolPropertyView {
    pub name: Seq<char>,
    pub kind: Seq<char>,
    pub description: Option<Seq<char>>,
    pub choices: Seq<Seq<char>>,
}

/// A tool as plain values.
pub struct ToolDefinitionView {
    pub name: Seq<char>,
    pub description: Seq<char>,
    pub properties: Seq<ToolPropertyView>,
    pub required: Seq<Seq<char>>,
}

impl View for ToolProperty {
    type V = ToolPropertyView;

    open spec fn view(&self) -> ToolPropertyView {
        ToolPropertyView {
            name: self.name@,
            kind: self.kind@,
            description: option_text(self.description),
            choices: texts(self.choices@),
        }
    }
}

impl View for ToolDefinition {
    type V = ToolDefinitionView;

    open spec fn view(&self) -> ToolDefinitionView {
        ToolDefinitionView {
            name: self.name@,
            description: self.description@,
            properties: Seq::new(self.properties@.len(), |i: int| self.properties@[i]@),
            required: texts(self.required@),
        }
    }
}

/// The tools as plain values.
pub open spec fn definitions_view(tools: Seq<ToolDefinition>) -> Seq<ToolDefinitionView> {
    Seq::new(tools.len(), |i: int| tools[i]@)
}

/// An argument of which only the type is said.
pub open spec fn bare(name: Seq<char>, kind: Seq<char>) -> ToolPropertyView {
    ToolPropertyView { name, kind, description: None, choices: Seq::empty() }
}

/// An argument with a description.
pub open spec fn described(name: Seq<char>, kind: Seq<char>, about: Seq<char>) -> ToolPropertyView {
    ToolPropertyView { name, kind, description: Some(about), choices: Seq::empty() }
}

/// Every tool, in the order in which they are offered.
pub open spec fn tool_table() -> Seq<ToolDefinitionView> {
    seq![
        ToolDefinitionView {
            name: "search_entries"@,
            description: SEARCH_ENTRIES_DESCRIPTION@,
            properties: seq![
                described("query"@, "string"@, SEARCH_QUERY_DESCRIPTION@),
                ToolPropertyView {
                    name: "status"@,
                    kind: "string"@,
                    description: Some(SEARCH_STATUS_DESCRIPTION@),
                    choices: seq!["active"@, "superseded"@, "protected"@, "all"@],
                },
            ],
            required: seq!["query"@],
        },
        ToolDefinitionView {
            name: "query_db"@,
            description: QUERY_DB_DESCRIPTION@,
            properties: seq![described("sql"@, "string"@, "A SELECT SQL query."@)],
            required: seq!["sql"@],
        },
        ToolDefinitionView {
            name: "update_entry"@,
            description: "Update fields on an existing memory entry."@,
            properties: seq![
                bare("entry_id"@, "string"@),
                bare("summary_text"@, "string"@),
                bare("topic_tags"@, "string"@),
                bare("confidence"@, "number"@),
                bare("memory_type"@, "string"@),
                described("reason"@, "string"@, "Changelog description for this change."@),
            ],
            required: seq!["entry_id"@, "reason"@],
        },
        ToolDefinitionView {
            name: "supersede_entry"@,
            description: "Mark an entry as superseded (replaced)."@,
            properties: seq![
                bare("entry_id"@, "string"@),
                described("superseded_by"@, "string"@, "ID of the replacement entry, if any."@),
                bare("reason"@, "string"@),
            ],
            required: seq!["entry_id"@, "reason"@],
        },
        ToolDefinitionView {
            name: "create_entry"@,
            description: "Create a new memory entry."@,
            properties: seq![
                bare("summary_text"@, "string"@),
                bare("topic_tags"@, "string"@),
                ToolPropertyView {
                    name: "memory_type"@,
                    kind: "string"@,
                    description: None,
                    choices: seq!["episodic"@, "semantic"@],
                },
                bare("confidence"@, "number"@),
                bare("reason"@, "string"@),
            ],
            required: seq!["summary_text"@, "reason"@],
        },
        ToolDefinitionView {
            name: "update_entity"@,
            description: "Update an entity's name, type, or description."@,
            properties: seq![
                bare("name"@, "string"@),
                bare("type"@, "string"@),
                bare("description"@, "string"@),
            ],
            required: seq!["name"@],
        },
        ToolDefinitionView {
            name: "merge_entity"@,
            description: MERGE_ENTITY_DESCRIPTION@,
            properties: seq![
                described(
                    "from_name"@,
                    "string"@,
                    "Name of the deprecated/duplicate entity to merge away."@,
                ),
                described("to_name"@, "string"@, "Name of the canonical entity to merge into."@),
            ],
            required: seq!["from_name"@, "to_name"@],
        },
        ToolDefinitionView {
            name: "resolve_flag"@,
            description: "Resolve a flag with a resolution description."@,
            properties: seq![bare("flag_id"@, "integer"@), bare("resolution"@, "string"@)],
            required: seq!["flag_id"@, "resolution"@],
        },
        ToolDefinitionView {
            name: "create_flag"@,
            description: "Create a new flag on an entry."@,
            properties: seq![
                bare("entry_id"@, "string"@),
                ToolPropertyView {
                    name: "flag_type"@,
                    kind: "string"@,
                    description: None,
                    choices: seq![
                        "contradiction"@,
                        "entity_conflict"@,
                        "stale"@,
                        "consolidation_ambiguity"@,
                        "ambiguous_tidy"@,
                    ],
                },
                bare("reason"@, "string"@),
            ],
            required: seq!["entry_id"@, "flag_type"@, "reason"@],
        },
    ]
}

fn bare_property(name: &str, kind: &str) -> (r: ToolProperty)
    ensures
        r@ == bare(name@, kind@),
{
    let r = ToolProperty {
        name: name.to_owned(),
        kind: kind.to_owned(),
        description: None,
        choices: Vec::new(),
    };
    assert(r@.choices =~= Seq::<Seq<char>>::empty());
    r
}

pub(crate) fn described_property(name: &str, kind: &str, about: &str) -> (r: ToolProperty)
    ensures
        r@ == described(name@, kind@, about@),
{
    let r = ToolProperty {
        name: name.to_owned(),
        kind: kind.to_owned(),
        description: Some(about.to_owned()),
        choices: Vec::new(),
    };
    assert(r@.choices =~= Seq::<Seq<char>>::empty());
    r
}

fn search_tool() -> (r: ToolDefinition)
    ensures
        r@ == tool_table()[0],
{
    let r = ToolDefinition {
        name: "search_entries".to_owned(),
        description: SEARCH_ENTRIES_DESCRIPTION.to_owned(),
        properties: vec![
            described_property("query", "string", SEARCH_QUERY_DESCRIPTION),
            ToolProperty {
                name: "status".to_owned(),
                kind: "string".to_owned(),
                description: Some(SEARCH_STATUS_DESCRIPTION.to_owned()),
                choices: vec![
                    "active".to_owned(),
                    "superseded".to_owned(),
                    "protected".to_owned(),
                    "all".to_owned(),
                ],
            },
        ],
        required: vec!["query".to_owned()],
    };
    proof {
        let t = tool_table()[0];
        assert(texts(r.properties@[1].choices@) =~= t.properties[1].choices);
        assert(r@.properties =~= t.properties);
        assert(r@.required =~= t.required);
    }
    r
}

fn query_tool() -> (r: ToolDefinition)
    ensures
        r@ == tool_table()[1],
{
    let r = ToolDefinition {
        name: "query_db".to_owned(),
        description: QUERY_DB_DESCRIPTION.to_owned(),
        properties: vec![
            described_property("sql", "string", "A SELECT SQL query."),
        ],
        required: vec!["sql".to_owned()],
    };
    proof {
        let t = tool_table()[1];
        assert(r@.properties =~= t.properties);
        assert(r@.required =~= t.required);
    }
    r
}

fn update_entry_tool() -> (r: ToolDefinition)
    ensures
        r@ == tool_table()[2],
{
    let r = ToolDefinition {
        name: "update_entry".to_owned(),
        description: "Update fields on an existing memory entry.".to_owned(),
        properties: vec![
            bare_property("entry_id", "string"),
            bare_property("summary_text", "string"),
            bare_property("topic_tags", "string"),
            bare_property("confidence", "number"),
            bare_property("memory_type", "string"),
            described_property("reason", "string", "Changelog description for this change."),
        ],
        required: vec!["entry_id".to_owned(), "reason".to_owned()],
    };
    proof {
        let t = tool_table()[2];
        assert(r@.properties =~= t.properties);
        assert(r@.required =~= t.required);
    }
    r
}

fn supersede_entry_tool() -> (r: ToolDefinition)
    ensures
        r@ == tool_table()[3],
{
    let r = ToolDefinition {
        name: "supersede_entry".to_owned(),
        description: "Mark an entry as superseded (replaced).".to_owned(),
        properties: vec![
            bare_property("entry_id", "string"),
            described_property("superseded_by", "string", "ID of the replacement entry, if any."),
            bare_property("reason", "string"),
        ],
        required: vec!["entry_id".to_owned(), "reason".to_owned()],
    };
    proof {
        let t = tool_table()[3];
        assert(r@.properties =~= t.properties);
        assert(r@.required =~= t.required);
    }
    r
}

fn create_entry_tool() -> (r: ToolDefinition)
    ensures
        r@ == tool_table()[4],
{
    let r = ToolDefinition {
        name: "create_entry".to_owned(),
        description: "Create a new memory entry.".to_owned(),
        properties: vec![
            bare_property("summary_text", "string"),
            bare_property("topic_tags", "string"),
            ToolProperty {
                name: "memory_type".to_owned(),
                kind: "string".to_owned(),
                description: None,
                choices: vec![
                    "episodic".to_owned(),
                    "semantic".to_owned(),
                ],
            },
            bare_property("confidence", "number"),
            bare_property("reason", "string"),
        ],
        required: vec!["summary_text".to_owned(), "reason".to_owned()],
    };
    proof {
        let t = tool_table()[4];
        assert(texts(r.properties@[2].choices@) =~= t.properties[2].choices);
        assert(r@.properties =~= t.properties);
        assert(r@.required =~= t.required);
    }
    r
}

fn update_entity_tool() -> (r: ToolDefinition)
    ensures
        r@ == tool_table()[5],
{
    let r = ToolDefinition {
        name: "update_entity".to_owned(),
        description: "Update an entity's name, type, or description.".to_owned(),
        properties: vec![
            bare_property("name", "string"),
            bare_property("type", "string"),
            bare_property("description", "string"),
        ],
        required: vec!["name".to_owned()],
    };
    proof {
        let t = tool_table()[5];
        assert(r@.properties =~= t.properties);
        assert(r@.required =~= t.required);
    }
    r
}

fn merge_entity_tool() -> (r: ToolDefinition)
    ensures
        r@ == tool_table()[6],
{
    let r = ToolDefinition {
        name: "merge_entity".to_owned(),
        description: MERGE_ENTITY_DESCRIPTION.to_owned(),
        properties: vec![
            described_property("from_name", "string", "Name of the deprecated/duplicate entity to merge away."),
            described_property("to_name", "string", "Name of the canonical entity to merge into."),
        ],
        required: vec!["from_name".to_owned(), "to_name".to_owned()],
    };
    proof {
        let t = tool_table()[6];
        assert(r@.properties =~= t.properties);
        assert(r@.required =~= t.required);
    }
    r
}

fn resolve_flag_tool() -> (r: ToolDefinition)
    ensures
        r@ == tool_table()[7],
{
    let r = ToolDefinition {
        name: "resolve_flag".to_owned(),
        description: "Resolve a flag with a resolution description.".to_owned(),
        properties: vec![
            bare_property("flag_id", "integer"),
            bare_property("resolution", "string"),
        ],
        required: vec!["flag_id".to_owned(), "resolution".to_owned()],
    };
    proof {
        let t = tool_table()[7];
        assert(r@.properties =~= t.properties);
        assert(r@.required =~= t.required);
    }
    r
}

fn create_flag_tool() -> (r: ToolDefinition)
    ensures
        r@ == tool_table()[8],
{
    let r = ToolDefinition {
        name: "create_flag".to_owned(),
        description: "Create a new flag on an entry.".to_owned(),
        properties: vec![
            bare_property("entry_id", "string"),
            ToolProperty {
                name: "flag_type".to_owned(),
                kind: "string".to_owned(),
                description: None,
                choices: vec![
                    "contradiction".to_owned(),
                    "entity_conflict".to_owned(),
                    "stale".to_owned(),
                    "consolidation_ambiguity".to_owned(),
                    "ambiguous_tidy".to_owned(),
                ],
            },
            bare_property("reason", "string"),
        ],
        required: vec!["entry_id".to_owned(), "flag_type".to_owned(), "reason".to_owned()],
    };
    proof {
        let t = tool_table()[8];
        assert(texts(r.properties@[1].choices@) =~= t.properties[1].choices);
        assert(r@.properties =~= t.properties);
        assert(r@.required =~= t.required);
    }
    r
}

/// The definitions of all tools that the agent offers to the model.
pub fn tool_definitions() -> (r: Vec<ToolDefinition>)
    ensures
        definitions_view(r@) == tool_table(),
{
    let r = vec![
        search_tool(),
        query_tool(),
        update_entry_tool(),
        supersede_entry_tool(),
        create_entry_tool(),
        update_entity_tool(),
        merge_entity_tool(),
        resolve_flag_tool(),
        create_flag_tool(),
    ];
    assert(definitions_view(r@) =~= tool_table());
    r
}

/// `arg` is one of the declared arguments of `tool`.
pub open spec fn declares(tool: ToolDefinitionView, arg: Seq<char>) -> bool {
    exists|p: int| 0 <= p < tool.properties.len() && (#[trigger] tool.properties[p]).name == arg
}

/// Every tool that changes the memory is offered to the model, and every argument that a tool demands
/// is one of its declared arguments.
pub proof fn offered_tools_are_consistent(name: Seq<char>)
    ensures
        is_write_name(name) ==> exists|i: int|
            0 <= i < tool_table().len() && (#[trigger] tool_table()[i]).name == name,
        forall|i: int, k: int|
            0 <= i < tool_table().len() && 0 <= k < tool_table()[i].required.len() ==> declares(
                tool_table()[i],
                #[trigger] tool_table()[i].required[k],
            ),
{
    let t = tool_table();
    if is_write_name(name) {
        assert(t[2].name == "update_entry"@);
        assert(t[3].name == "supersede_entry"@);
        assert(t[4].name == "create_entry"@);
        assert(t[5].name == "update_entity"@);
        assert(t[6].name == "merge_entity"@);
        assert(t[7].name == "resolve_flag"@);
        assert(t[8].name == "create_flag"@);
    }
    assert forall|i: int, k: int|
        0 <= i < t.len() && 0 <= k < t[i].required.len() implies declares(
        t[i],
        #[trigger] t[i].required[k],
    ) by {
        let p: int = if i == 2 && k == 1 {
            5
        } else if i == 3 && k == 1 {
            2
        } else if i == 4 && k == 1 {
            4
        } else {
            k
        };
        assert(t[i].properties[p].name == t[i].required[k]);
    }
}

}
