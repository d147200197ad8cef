//! The text side of the `write` tool: its arguments and its answers.
use vstd::prelude::*;

use crate::edit::resolve_path;
use crate::model::{ToolError, ToolResult, ToolSpec};
use crate::text::{push_str, string_of};

verus! {

/// The `write` tool, writing files below a workspace directory.
pub struct WriteTool {
    pub workspace: String,
}

impl WriteTool {
    pub fn new(workspace: String) -> (t: Self)
        ensures
            t.workspace == workspace,
    {
        WriteTool { workspace }
    }

    /// The tool as offered to the model.
    pub fn spec(&self) -> (s: ToolSpec)
        ensures
            s.name@ == "write"@,
            s.description@ == "Create or overwrite files. Automatically creates parent directories."@,
            s.parameters@ == "{\"type\":\"object\",\"properties\":{\"path\":{\"type\":\"string\",\"description\":\"Path to the file to write\"},\"content\":{\"type\":\"string\",\"description\":\"Content to write to the file\"}},\"required\":[\"path\",\"content\"]}"@,
    {
        ToolSpec {
            name: "write".to_owned(),
            description: "Create or overwrite files. Automatically creates parent directories.".to_owned(),
            parameters: "{\"type\":\"object\",\"properties\":{\"path\":{\"type\":\"string\",\"description\":\"Path to the file to write\"},\"content\":{\"type\":\"string\",\"description\":\"Content to write to the file\"}},\"required\":[\"path\",\"content\"]}".to_owned(),
        }
    }

    /// Checks the arguments of a `write` call: `path`, then `content`, each
    /// present as a string.
    pub fn check_input(&self, path: &Option<String>, content: &Option<String>) -> (r: Result<(String, String), ToolError>)
        ensures
            match (path, content) {
                (Some(p), Some(c)) => r matches Ok((q, d)) && q@ == p@ && d@ == c@,
                (None, _) => r matches Err(ToolError::InvalidInput(m)) && m@ == "missing '"@ + "path"@
                    + "'"@,
                (Some(_), None) => r matches Err(ToolError::InvalidInput(m)) && m@ == "missing '"@
                    + "content"@ + "'"@,
            },
    {
        let p = match resolve_path(path, "path") {
            Ok(p) => p,
            Err(e) => return Err(e),
        };
        let c = match resolve_path(content, "content") {
            Ok(c) => c,
            Err(e) => return Err(e),
        };
        Ok((p, c))
    }

    /// The answer after the file was written.
    pub fn written(&self, path: &str) -> (r: ToolResult)
        ensures
            r.content@ == "Successfully wrote to "@ + path@,
            !r.is_error,
    {
        let mut v: Vec<char> = Vec::new();
        push_str(&mut v, "Successfully wrote to ");
        push_str(&mut v, path);
        ToolResult { content: string_of(v.as_slice()), is_error: false }
    }
}

} // verus!
