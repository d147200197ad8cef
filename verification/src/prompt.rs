//! The system prompt: the tools and how to use them, the project's own
//! instructions, and the working directory.
use vstd::prelude::*;

use crate::text::{join, push_str, str_eq, string_of};

verus! {

/// What the prompt says a tool does.
pub open spec fn snippet(name: Seq<char>) -> Seq<char> {
    if name == "read"@ {
        "Read file contents"@
    } else if name == "write"@ {
        "Create or overwrite files"@
    } else if name == "edit"@ {
        "Make precise file edits with exact text replacement"@
    } else if name == "bash"@ {
        "Execute bash commands"@
    } else {
        "Custom tool"@
    }
}

/// One line per tool describing it.
pub fn tool_snippet(name: &str) -> (r: &'static str)
    ensures
        r@ == snippet(name@),
{
    if str_eq(name, "read") {
        "Read file contents"
    } else if str_eq(name, "write") {
        "Create or overwrite files"
    } else if str_eq(name, "edit") {
        "Make precise file edits with exact text replacement"
    } else if str_eq(name, "bash") {
        "Execute bash commands"
    } else {
        "Custom tool"
    }
}

/// The tools include one named `name`.
pub open spec fn has_tool(tools: Seq<&str>, name: Seq<char>) -> bool {
    exists|i: int| 0 <= i < tools.len() && tools[i]@ == name
}

/// The guidelines for a set of tools: editing advice when `edit` is there,
/// writing advice for `write`, reading advice for `read`, then two general
/// ones.
pub open spec fn guideline_items(tools: Seq<&str>) -> Seq<Seq<char>> {
    (if has_tool(tools, "edit"@) {
        seq![
            "Use edit for precise changes (edits[].oldText must match exactly)"@,
            "When changing multiple separate locations in one file, use one edit call with multiple entries"@,
            "Keep edits[].oldText as small as possible while still being unique in the file"@,
        ]
    } else {
        Seq::empty()
    }) + (if has_tool(tools, "write"@) {
        seq!["Use write only for new files or complete rewrites"@]
    } else {
        Seq::empty()
    }) + (if has_tool(tools, "read"@) {
        seq!["Use read to examine files instead of cat or sed"@]
    } else {
        Seq::empty()
    }) + seq!["Be concise in your responses"@, "Show file paths clearly when working with files"@]
}

/// Each item as a `- ` list line, joined with newlines.
pub open spec fn bullets(items: Seq<Seq<char>>) -> Seq<char> {
    join(items.map_values(|g: Seq<char>| "- "@ + g), "\n"@)
}

fn has_tool_exec(tools: &[&str], name: &str) -> (b: bool)
    ensures
        b == has_tool(tools@, name@),
{
    let mut i: usize = 0;
    while i < tools.len()
        invariant
            i <= tools.len(),
            forall|j: int| 0 <= j < i ==> tools@[j]@ != name@,
        decreases tools.len() - i,
    {
        if str_eq(tools[i], name) {
            return true;
        }
        i += 1;
    }
    false
}

/// Items as a bullet list (see [`bullets`]).
fn bullet_list(items: &[&str]) -> (r: String)
    ensures
        r@ == bullets(items@.map_values(|s: &str| s@)),
{
    let ghost all = items@.map_values(|s: &str| s@);
    let mut v: Vec<char> = Vec::new();
    let mut i: usize = 0;
    while i < items.len()
        invariant
            i <= items.len(),
            all == items@.map_values(|s: &str| s@),
            v@ == bullets(all.take(i as int)),
        decreases items.len() - i,
    {
        let ghost before = v@;
        if i > 0 {
            push_str(&mut v, "\n");
        }
        push_str(&mut v, "- ");
        push_str(&mut v, items[i]);
        proof {
            let t = all.take(i as int + 1);
            let m = t.map_values(|x: Seq<char>| "- "@ + x);
            assert(m.drop_last() =~= all.take(i as int).map_values(|x: Seq<char>| "- "@ + x));
            assert(m.last() == "- "@ + items@[i as int]@);
            if i == 0 {
                assert(m.len() == 1);
                assert(v@ =~= m[0]);
            } else {
                assert(v@ =~= before + "\n"@ + ("- "@ + items@[i as int]@));
            }
        }
        i += 1;
    }
    assert(all.take(items.len() as int) =~= all);
    string_of(v.as_slice())
}

/// The tool guidelines as a bullet list (see [`guideline_items`]).
pub fn tool_guidelines(tools: &[&str]) -> (r: String)
    ensures
        r@ == bullets(guideline_items(tools@)),
{
    let edit = has_tool_exec(tools, "edit");
    let write = has_tool_exec(tools, "write");
    let read = has_tool_exec(tools, "read");
    let mut items: Vec<&str> = Vec::new();
    if edit {
        items.push("Use edit for precise changes (edits[].oldText must match exactly)");
        items.push(
            "When changing multiple separate locations in one file, use one edit call with multiple entries",
        );
        items.push("Keep edits[].oldText as small as possible while still being unique in the file");
    }
    let ghost a = items@.map_values(|s: &str| s@);
    if write {
        items.push("Use write only for new files or complete rewrites");
    }
    let ghost b = items@.map_values(|s: &str| s@);
    if read {
        items.push("Use read to examine files instead of cat or sed");
    }
    let ghost c = items@.map_values(|s: &str| s@);
    items.push("Be concise in your responses");
    items.push("Show file paths clearly when working with files");
    proof {
        let g = guideline_items(tools@);
        let e1 = if has_tool(tools@, "edit"@) {
            seq![
                "Use edit for precise changes (edits[].oldText must match exactly)"@,
                "When changing multiple separate locations in one file, use one edit call with multiple entries"@,
                "Keep edits[].oldText as small as possible while still being unique in the file"@,
            ]
        } else {
            Seq::<Seq<char>>::empty()
        };
        assert(a =~= e1);
        let e2 = if has_tool(tools@, "write"@) {
            seq!["Use write only for new files or complete rewrites"@]
        } else {
            Seq::<Seq<char>>::empty()
        };
        assert(b =~= e1 + e2);
        let e3 = if has_tool(tools@, "read"@) {
            seq!["Use read to examine files instead of cat or sed"@]
        } else {
            Seq::<Seq<char>>::empty()
        };
        assert(c =~= e1 + e2 + e3);
        assert(items@.map_values(|s: &str| s@) =~= g);
    }
    bullet_list(items.as_slice())
}

/// The tools the agent offers, in the order the prompt lists them.
pub open spec fn default_tools() -> Seq<&'static str> {
    seq!["read", "write", "edit", "bash"]
}

/// The tool list: `- name: what it does`, one per line.
pub open spec fn tool_lines(tools: Seq<&str>) -> Seq<char> {
    join(tools.map_values(|n: &str| "- "@ + n@ + ": "@ + snippet(n@)), "\n"@)
}

/// A project instruction file found for the working directory.
#[derive(Debug, Clone)]
pub struct ContextFile {
    pub path: String,
    pub content: String,
}

/// The instruction files, each in its own tagged block.
pub open spec fn context_blocks(files: Seq<ContextFile>) -> Seq<char>
    decreases files.len(),
{
    if files.len() == 0 {
        Seq::empty()
    } else {
        context_blocks(files.drop_last()) + "<project_instructions path=\""@ + files.last().path@
            + "\">\n"@ + files.last().content@ + "\n</project_instructions>\n\n"@
    }
}

/// The project-context section, absent without instruction files.
pub open spec fn context_section(files: Seq<ContextFile>) -> Seq<char> {
    if files.len() == 0 {
        Seq::empty()
    } else {
        "\n\n<project_context>\n\n"@ + "Project-specific instructions and guidelines:\n\n"@
            + context_blocks(files) + "</project_context>"@
    }
}

/// The system prompt: a custom one as it is; else the tool list, the
/// guidelines, the project context and the working directory.
pub open spec fn system_prompt(custom: Option<String>, files: Seq<ContextFile>, cwd: Seq<char>) -> Seq<char> {
    match custom {
        Some(c) => c@,
        None => "You are a coding agent. You help users with software engineering tasks.\n\nAvailable tools:\n"@
            + tool_lines(default_tools()) + "\n\nGuidelines:\n"@ + bullets(
            guideline_items(default_tools()),
        ) + context_section(files) + "\n\nCurrent working directory: "@ + cwd,
    }
}

fn push_tool_line(v: &mut Vec<char>, first: bool, name: &str)
    ensures
        final(v)@ == old(v)@ + (if first {
            Seq::empty()
        } else {
            "\n"@
        }) + ("- "@ + name@ + ": "@ + snippet(name@)),
{
    if !first {
        push_str(v, "\n");
    }
    push_str(v, "- ");
    push_str(v, name);
    push_str(v, ": ");
    push_str(v, tool_snippet(name));
    proof {
        if first {
            assert(final(v)@ =~= old(v)@ + Seq::<char>::empty() + ("- "@ + name@ + ": "@ + snippet(name@)));
        } else {
            assert(final(v)@ =~= old(v)@ + "\n"@ + ("- "@ + name@ + ": "@ + snippet(name@)));
        }
    }
}

/// Builds the system prompt (see [`system_prompt`]); `custom` is the text
/// of a `SYSTEM.md` found for the project or the user, `files` the
/// instruction files found, outermost directory first.
pub fn build_system_prompt(custom: Option<String>, files: &[ContextFile], cwd: &str) -> (r: String)
    ensures
        r@ == system_prompt(custom, files@, cwd@),
{
    match custom {
        Some(c) => return c,
        None => {},
    }
    let mut tools: Vec<&str> = Vec::new();
    tools.push("read");
    tools.push("write");
    tools.push("edit");
    tools.push("bash");
    assert(tools@ =~= default_tools());
    let mut v: Vec<char> = Vec::new();
    push_str(
        &mut v,
        "You are a coding agent. You help users with software engineering tasks.\n\nAvailable tools:\n",
    );
    let ghost head = v@;
    let mut i: usize = 0;
    while i < tools.len()
        invariant
            i <= tools.len(),
            tools@ == default_tools(),
            v@ == head + tool_lines(tools@.take(i as int)),
        decreases tools.len() - i,
    {
        let ghost before = v@;
        push_tool_line(&mut v, i == 0, tools[i]);
        proof {
            let t = tools@.take(i as int + 1);
            let m = t.map_values(|n: &str| "- "@ + n@ + ": "@ + snippet(n@));
            assert(m.drop_last() =~= tools@.take(i as int).map_values(
                |n: &str| "- "@ + n@ + ": "@ + snippet(n@),
            ));
            assert(t.last() == tools@[i as int]);
            if i == 0 {
                assert(m.len() == 1);
                assert(v@ =~= head + tool_lines(t));
            } else {
                assert(v@ =~= head + tool_lines(t));
            }
        }
        i += 1;
    }
    assert(tools@.take(4) =~= tools@);
    push_str(&mut v, "\n\nGuidelines:\n");
    let g = tool_guidelines(tools.as_slice());
    push_str(&mut v, g.as_str());
    let ghost before_ctx = v@;
    if files.len() > 0 {
        push_str(&mut v, "\n\n<project_context>\n\n");
        push_str(&mut v, "Project-specific instructions and guidelines:\n\n");
        let ghost start = v@;
        let mut k: usize = 0;
        while k < files.len()
            invariant
                k <= files.len(),
                v@ == start + context_blocks(files@.take(k as int)),
            decreases files.len() - k,
        {
            push_str(&mut v, "<project_instructions path=\"");
            push_str(&mut v, files[k].path.as_str());
            push_str(&mut v, "\">\n");
            push_str(&mut v, files[k].content.as_str());
            push_str(&mut v, "\n</project_instructions>\n\n");
            proof {
                let t = files@.take(k as int + 1);
                assert(t.drop_last() =~= files@.take(k as int));
                assert(t.last() == files@[k as int]);
                assert(v@ =~= start + context_blocks(t));
            }
            k += 1;
        }
        assert(files@.take(files.len() as int) =~= files@);
        push_str(&mut v, "</project_context>");
        assert(v@ =~= before_ctx + context_section(files@));
    } else {
        assert(v@ =~= before_ctx + context_section(files@));
    }
    push_str(&mut v, "\n\nCurrent working directory: ");
    push_str(&mut v, cwd);
    assert(v@ =~= system_prompt(custom, files@, cwd@));
    string_of(v.as_slice())
}

} // verus!
