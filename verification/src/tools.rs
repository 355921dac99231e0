//! Tool definitions and handlers: the structured editor and memory
//! retrieval, as far as they compute rather than perform I/O.

use vstd::prelude::*;

use crate::edit::EditError;
use crate::edit::count_occ;
use crate::edit::create_patch_spec;
use crate::edit::delete_patch_spec;
use crate::edit::edit_error_text;
use crate::edit::generate_create_patch;
use crate::edit::generate_delete_patch;
use crate::edit::generate_str_replace_patch;
use crate::edit::str_replace_patch_spec;
use crate::text::str_eq;

verus! {

/// A parameter schema, as far as these tools need one.
#[derive(Debug, PartialEq, Eq)]
pub enum JsonSchema {
    String { description: Option<String> },
    Object {
        properties: Vec<(String, JsonSchema)>,
        required: Option<Vec<String>>,
        additional_properties: Option<bool>,
    },
}

/// A function tool offered to the model.
#[derive(Debug, PartialEq, Eq)]
pub struct ResponsesApiTool {
    pub name: String,
    pub description: String,
    pub strict: bool,
    pub parameters: JsonSchema,
}

/// The tool specification variants the runtime understands.
#[derive(Debug, PartialEq, Eq)]
pub enum ToolSpec {
    Function(ResponsesApiTool),
}

/// The kinds of tool handlers.
#[derive(Debug, Clone, Copy, PartialEq, Eq, Structural)]
pub enum ToolKind {
    Function,
}

/// One string property with its description.
pub open spec fn is_string_property(
    p: (String, JsonSchema),
    key: Seq<char>,
    description: Seq<char>,
) -> bool {
    &&& p.0@ =~= key
    &&& p.1 matches JsonSchema::String { description: Some(d) } && d@ =~= description
}

/// The `text_editor` tool: three commands over one file path, with the
/// property table in key order.
pub fn create_text_editor_tool() -> (t: ToolSpec)
    ensures
        ({
            let ToolSpec::Function(f) = t;
            &&& f.name@ =~= "text_editor"@
            &&& !f.strict
            &&& match f.parameters {
                JsonSchema::Object { properties, required, additional_properties } => {
                    &&& properties@.len() == 5
                    &&& is_string_property(
                        properties@[0],
                        "command"@,
                        "The editing command to execute. One of: 'create', 'str_replace', 'delete'."@,
                    )
                    &&& is_string_property(
                        properties@[1],
                        "file_text"@,
                        "Required for 'create' command. The full content of the new file."@,
                    )
                    &&& is_string_property(
                        properties@[2],
                        "new_str"@,
                        "Required for 'str_replace' command. The replacement text. Omit or set empty to delete old_str."@,
                    )
                    &&& is_string_property(
                        properties@[3],
                        "old_str"@,
                        "Required for 'str_replace' command. The exact text to find in the file. Must match exactly once."@,
                    )
                    &&& is_string_property(
                        properties@[4],
                        "path"@,
                        "Relative path to the file to operate on."@,
                    )
                    &&& match required {
                        Some(req) => req@.len() == 2 && req@[0]@ =~= "command"@ && req@[1]@
                            =~= "path"@,
                        None => false,
                    }
                    &&& additional_properties == Some(false)
                },
                _ => false,
            }
        }),
{
    let mut properties: Vec<(String, JsonSchema)> = Vec::new();
    properties.push(
        (
            "command".to_owned(),
            JsonSchema::String {
                description: Some(
                    "The editing command to execute. One of: 'create', 'str_replace', 'delete'.".to_owned(),
                ),
            },
        ),
    );
    properties.push(
        (
            "file_text".to_owned(),
            JsonSchema::String {
                description: Some(
                    "Required for 'create' command. The full content of the new file.".to_owned(),
                ),
            },
        ),
    );
    properties.push(
        (
            "new_str".to_owned(),
            JsonSchema::String {
                description: Some(
                    "Required for 'str_replace' command. The replacement text. Omit or set empty to delete old_str.".to_owned(),
                ),
            },
        ),
    );
    properties.push(
        (
            "old_str".to_owned(),
            JsonSchema::String {
                description: Some(
                    "Required for 'str_replace' command. The exact text to find in the file. Must match exactly once.".to_owned(),
                ),
            },
        ),
    );
    properties.push(
        (
            "path".to_owned(),
            JsonSchema::String {
                description: Some("Relative path to the file to operate on.".to_owned()),
            },
        ),
    );
    let mut required: Vec<String> = Vec::new();
    required.push("command".to_owned());
    required.push("path".to_owned());
    ToolSpec::Function(
        ResponsesApiTool {
            name: "text_editor".to_owned(),
            description: "Edit files using structured commands.\n\nCommands:\n- **create**: Create a new file. Requires 'path' and 'file_text'.\n- **str_replace**: Replace text in an existing file. Requires 'path', 'old_str', and 'new_str'. The 'old_str' must match exactly one location in the file.\n- **delete**: Delete a file. Requires 'path'.\n".to_owned(),
            strict: false,
            parameters: JsonSchema::Object {
                properties,
                required: Some(required),
                additional_properties: Some(false),
            },
        },
    )
}

/// The `memory_retrieve` tool: one query string.
pub fn tool_spec() -> (t: ToolSpec)
    ensures
        ({
            let ToolSpec::Function(f) = t;
            &&& f.name@ =~= "memory_retrieve"@
            &&& !f.strict
            &&& f.description@
                =~= "Research project memories and return synthesized findings for your query. Use when memory clues in the system prompt match your task."@
            &&& match f.parameters {
                JsonSchema::Object { properties, required, additional_properties } => {
                    &&& properties@.len() == 1
                    &&& is_string_property(
                        properties@[0],
                        "query"@,
                        "Detailed description of what context you need from project memories"@,
                    )
                    &&& match required {
                        Some(req) => req@.len() == 1 && req@[0]@ =~= "query"@,
                        None => false,
                    }
                    &&& additional_properties == Some(false)
                },
                _ => false,
            }
        }),
{
    let mut properties: Vec<(String, JsonSchema)> = Vec::new();
    properties.push(
        (
            "query".to_owned(),
            JsonSchema::String {
                description: Some(
                    "Detailed description of what context you need from project memories".to_owned(),
                ),
            },
        ),
    );
    let mut required: Vec<String> = Vec::new();
    required.push("query".to_owned());
    ToolSpec::Function(
        ResponsesApiTool {
            name: "memory_retrieve".to_owned(),
            description: "Research project memories and return synthesized findings for your query. Use when memory clues in the system prompt match your task.".to_owned(),
            strict: false,
            parameters: JsonSchema::Object {
                properties,
                required: Some(required),
                additional_properties: Some(false),
            },
        },
    )
}

/// The structured-editor tool handler: its command dispatch builds a patch
/// string; applying the patch, event emission and sandboxing happen in the
/// surrounding runtime.
pub struct StructuredEditHandler;

/// The memory-retrieval tool handler: its text composition lives here; the
/// sub-agent orchestration happens in the surrounding runtime.
pub struct MemoryRetrieveHandler;

impl StructuredEditHandler {
    /// The handler's kind.
    pub fn kind(&self) -> (k: ToolKind)
        ensures
            k == ToolKind::Function,
    {
        ToolKind::Function
    }

    /// Every structured edit mutates the workspace.
    pub fn is_mutating(&self) -> (r: bool)
        ensures
            r,
    {
        true
    }

    /// Dispatches one edit command to its patch generator.  `file_content`
    /// is the current content of the file, needed only by `str_replace`.
    pub fn build_patch(
        &self,
        command: &str,
        path: &str,
        file_text: Option<String>,
        old_str: Option<String>,
        new_str: Option<String>,
        file_content: Option<String>,
    ) -> (r: Result<String, EditError>)
        requires
            command@ =~= "str_replace"@ ==> file_content is Some && file_content.unwrap()@.len()
                < usize::MAX as int && !(old_str is Some && old_str.unwrap()@.len() == 0
                && file_content.unwrap()@.len() == 0),
        ensures
            command@ =~= "create"@ && file_text is Some ==> (r matches Ok(p) && p@
                =~= create_patch_spec(path@, file_text.unwrap()@)),
            command@ =~= "create"@ && file_text is None ==> (r matches Err(e) && edit_error_text(
                e,
            ) =~= "create command requires 'file_text' parameter"@),
            command@ =~= "delete"@ ==> match r {
                Ok(p) => p@ =~= delete_patch_spec(path@),
                Err(_) => false,
            },
            command@ =~= "str_replace"@ && old_str is None ==> (r matches Err(e)
                && edit_error_text(e) =~= "str_replace command requires 'old_str' parameter"@),
            command@ =~= "str_replace"@ && old_str is Some && old_str.unwrap()@.len() > 0
                && count_occ(file_content.unwrap()@, old_str.unwrap()@) == 1 ==> (r matches Ok(p)
                && p@ =~= str_replace_patch_spec(
                path@,
                old_str.unwrap()@,
                (match new_str {
                    Some(n) => n@,
                    None => Seq::empty(),
                }),
                file_content.unwrap()@,
            )),
            command@ =~= "str_replace"@ && old_str is Some && old_str.unwrap()@.len() > 0
                && count_occ(file_content.unwrap()@, old_str.unwrap()@) != 1 ==> r is Err,
            !(command@ =~= "create"@) && !(command@ =~= "str_replace"@) && !(command@
                =~= "delete"@) ==> (r matches Err(e) && edit_error_text(e) =~= "unknown command '"@
                + command@ + "'. Expected 'create', 'str_replace', or 'delete'"@),
    {
        proof {
            reveal_strlit("create");
            reveal_strlit("str_replace");
            reveal_strlit("delete");
            assert("create"@[0] == 'c');
            assert("delete"@[0] == 'd');
            assert("str_replace"@[0] == 's');
        }
        if str_eq(command, "create") {
            match file_text {
                Some(text) => Ok(generate_create_patch(path, text.as_str())),
                None => Err(
                    EditError::RespondToModel(
                        "create command requires 'file_text' parameter".to_owned(),
                    ),
                ),
            }
        } else if str_eq(command, "str_replace") {
            let old = match old_str {
                Some(o) => o,
                None => {
                    return Err(
                        EditError::RespondToModel(
                            "str_replace command requires 'old_str' parameter".to_owned(),
                        ),
                    );
                },
            };
            let new = match new_str {
                Some(n) => n,
                None => String::new(),
            };
            let content = match file_content {
                Some(c) => c,
                None => String::new(),
            };
            generate_str_replace_patch(path, old.as_str(), new.as_str(), content.as_str())
        } else if str_eq(command, "delete") {
            let p = generate_delete_patch(path);
            proof {
                assert(p@ =~= delete_patch_spec(path@));
            }
            Ok(p)
        } else {
            let mut msg = String::new();
            msg.append("unknown command '");
            msg.append(command);
            msg.append("'. Expected 'create', 'str_replace', or 'delete'");
            Err(EditError::RespondToModel(msg))
        }
    }
}

impl MemoryRetrieveHandler {
    /// The handler's kind.
    pub fn kind(&self) -> (k: ToolKind)
        ensures
            k == ToolKind::Function,
    {
        ToolKind::Function
    }
}

} // verus!
