//! Slash commands: their names and help texts, the registry that resolves a
//! typed command line, and the help the `/help` command prints.
use vstd::prelude::*;

use crate::completer::CmdEntry;
use crate::text::{push_str, str_eq, string_of, trim, trim_str};

verus! {

/// A command as `/help` lists it.
#[derive(Debug, Clone, Copy)]
pub struct HelpEntry {
    pub name: &'static str,
    pub description: &'static str,
    pub arg_hint: Option<&'static str>,
}

/// A help entry as `(name, description, argument hint)`.
pub open spec fn entry_view(e: HelpEntry) -> (Seq<char>, Seq<char>, Option<Seq<char>>) {
    (
        e.name@,
        e.description@,
        match e.arg_hint {
            Some(h) => Some(h@),
            None => None,
        },
    )
}

/// The built-in commands, in the order `/help` lists them.
pub open spec fn builtin_entries() -> Seq<(Seq<char>, Seq<char>, Option<Seq<char>>)> {
    seq![
        ("help"@, "Show available commands (or /help <name> for details)"@, Some("[command]"@)),
        ("login"@, "Configure API credentials (interactive picker if no arg)"@, Some("[provider]"@)),
        ("logout"@, "Clear API credentials and reset to default"@, None),
        ("model"@, "Show or switch the current model (interactive picker if no arg)"@, Some("[model_name]"@)),
        ("new"@, "Start a new conversation"@, None),
        ("compact"@, "Compact conversation context"@, None),
        ("status"@, "Show current configuration"@, None),
        ("copy"@, "Copy last response to clipboard"@, None),
        ("export"@, "Export conversation to file"@, Some("[filename]"@)),
        ("quit"@, "Exit the agent"@, None),
    ]
}

fn entry(name: &'static str, description: &'static str, arg_hint: Option<&'static str>) -> (e: HelpEntry)
    ensures
        e.name == name,
        e.description == description,
        e.arg_hint == arg_hint,
{
    HelpEntry { name, description, arg_hint }
}

/// The help entries of the built-in commands (see [`builtin_entries`]).
pub fn builtin_help_entries() -> (r: Vec<HelpEntry>)
    ensures
        r@.map_values(|e: HelpEntry| entry_view(e)) == builtin_entries(),
{
    let mut r: Vec<HelpEntry> = Vec::new();
    r.push(entry("help", "Show available commands (or /help <name> for details)", Some("[command]")));
    r.push(entry("login", "Configure API credentials (interactive picker if no arg)", Some("[provider]")));
    r.push(entry("logout", "Clear API credentials and reset to default", None));
    r.push(
        entry(
            "model",
            "Show or switch the current model (interactive picker if no arg)",
            Some("[model_name]"),
        ),
    );
    r.push(entry("new", "Start a new conversation", None));
    r.push(entry("compact", "Compact conversation context", None));
    r.push(entry("status", "Show current configuration", None));
    r.push(entry("copy", "Copy last response to clipboard", None));
    r.push(entry("export", "Export conversation to file", Some("[filename]")));
    r.push(entry("quit", "Exit the agent", None));
    assert(r@.map_values(|e: HelpEntry| entry_view(e)) =~= builtin_entries());
    r
}

/// The built-in commands as completion entries.
pub fn build_cmd_entries() -> (r: Vec<CmdEntry>)
    ensures
        r@.map_values(|e: CmdEntry| crate::completer::cmd_view(e)) == builtin_entries(),
{
    let h = builtin_help_entries();
    let mut r: Vec<CmdEntry> = Vec::new();
    let mut i: usize = 0;
    while i < h.len()
        invariant
            i <= h.len(),
            h@.map_values(|e: HelpEntry| entry_view(e)) == builtin_entries(),
            r@.len() == i,
            forall|j: int|
                0 <= j < i ==> (#[trigger] r@[j].name@, r@[j].description@, match r@[j].arg_hint {
                    Some(x) => Some(x@),
                    None => None,
                }) == builtin_entries()[j],
        decreases h.len() - i,
    {
        let e = h[i];
        assert(h@.map_values(|e: HelpEntry| entry_view(e))[i as int] == entry_view(h@[i as int]));
        r.push(CmdEntry { name: e.name, description: e.description, arg_hint: e.arg_hint });
        i += 1;
    }
    assert(r@.map_values(|e: CmdEntry| crate::completer::cmd_view(e)) =~= builtin_entries());
    r
}

// ---------------------------------------------------------------------------
// Commands
// ---------------------------------------------------------------------------

/// `/help [command]`.
pub struct HelpCommand;

/// `/login [provider]`.
pub struct LoginCommand;

/// `/logout`.
pub struct LogoutCommand;

/// `/model [model_name]`.
pub struct ModelCommand;

/// `/new`.
pub struct NewCommand;

/// `/compact`.
pub struct CompactCommand;

/// `/status`.
pub struct StatusCommand;

/// `/copy`.
pub struct CopyCommand;

impl CopyCommand {
    /// What `/copy` answers: copying is not available yet.
    pub fn message() -> (r: &'static str)
        ensures
            r@ == "Copy not yet implemented in MVP."@,
    {
        "Copy not yet implemented in MVP."
    }
}

/// `/export [filename]`.
pub struct ExportCommand;

/// `/quit`.
pub struct QuitCommand;

impl HelpCommand {
    pub fn name(&self) -> (r: &'static str)
        ensures
            r@ == "help"@,
    {
        "help"
    }

    pub fn description(&self) -> (r: &'static str)
        ensures
            r@ == "Show available commands (or /help <name> for details)"@,
    {
        "Show available commands (or /help <name> for details)"
    }

    pub fn arg_hint(&self) -> (r: Option<&'static str>)
        ensures
            r matches Some(h) && h@ == "[command]"@,
    {
        Some("[command]")
    }
}

impl LoginCommand {
    pub fn name(&self) -> (r: &'static str)
        ensures
            r@ == "login"@,
    {
        "login"
    }

    pub fn description(&self) -> (r: &'static str)
        ensures
            r@ == "Configure API credentials (interactive picker if no arg)"@,
    {
        "Configure API credentials (interactive picker if no arg)"
    }

    pub fn arg_hint(&self) -> (r: Option<&'static str>)
        ensures
            r matches Some(h) && h@ == "[provider]"@,
    {
        Some("[provider]")
    }
}

impl LogoutCommand {
    pub fn name(&self) -> (r: &'static str)
        ensures
            r@ == "logout"@,
    {
        "logout"
    }

    pub fn description(&self) -> (r: &'static str)
        ensures
            r@ == "Clear API credentials and reset to default"@,
    {
        "Clear API credentials and reset to default"
    }

    pub fn arg_hint(&self) -> (r: Option<&'static str>)
        ensures
            r is None,
    {
        None
    }
}

impl ModelCommand {
    pub fn name(&self) -> (r: &'static str)
        ensures
            r@ == "model"@,
    {
        "model"
    }

    pub fn description(&self) -> (r: &'static str)
        ensures
            r@ == "Show or switch the current model (interactive picker if no arg)"@,
    {
        "Show or switch the current model (interactive picker if no arg)"
    }

    pub fn arg_hint(&self) -> (r: Option<&'static str>)
        ensures
            r matches Some(h) && h@ == "[model_name]"@,
    {
        Some("[model_name]")
    }
}

impl NewCommand {
    pub fn name(&self) -> (r: &'static str)
        ensures
            r@ == "new"@,
    {
        "new"
    }

    pub fn description(&self) -> (r: &'static str)
        ensures
            r@ == "Start a new conversation"@,
    {
        "Start a new conversation"
    }

    pub fn arg_hint(&self) -> (r: Option<&'static str>)
        ensures
            r is None,
    {
        None
    }
}

impl CompactCommand {
    pub fn name(&self) -> (r: &'static str)
        ensures
            r@ == "compact"@,
    {
        "compact"
    }

    pub fn description(&self) -> (r: &'static str)
        ensures
            r@ == "Compact conversation context"@,
    {
        "Compact conversation context"
    }

    pub fn arg_hint(&self) -> (r: Option<&'static str>)
        ensures
            r is None,
    {
        None
    }
}

impl StatusCommand {
    pub fn name(&self) -> (r: &'static str)
        ensures
            r@ == "status"@,
    {
        "status"
    }

    pub fn description(&self) -> (r: &'static str)
        ensures
            r@ == "Show current configuration"@,
    {
        "Show current configuration"
    }

    pub fn arg_hint(&self) -> (r: Option<&'static str>)
        ensures
            r is None,
    {
        None
    }
}

impl CopyCommand {
    pub fn name(&self) -> (r: &'static str)
        ensures
            r@ == "copy"@,
    {
        "copy"
    }

    pub fn description(&self) -> (r: &'static str)
        ensures
            r@ == "Copy last response to clipboard"@,
    {
        "Copy last response to clipboard"
    }

    pub fn arg_hint(&self) -> (r: Option<&'static str>)
        ensures
            r is None,
    {
        None
    }
}

impl ExportCommand {
    pub fn name(&self) -> (r: &'static str)
        ensures
            r@ == "export"@,
    {
        "export"
    }

    pub fn description(&self) -> (r: &'static str)
        ensures
            r@ == "Export conversation to file"@,
    {
        "Export conversation to file"
    }

    pub fn arg_hint(&self) -> (r: Option<&'static str>)
        ensures
            r matches Some(h) && h@ == "[filename]"@,
    {
        Some("[filename]")
    }
}

impl QuitCommand {
    pub fn name(&self) -> (r: &'static str)
        ensures
            r@ == "quit"@,
    {
        "quit"
    }

    pub fn description(&self) -> (r: &'static str)
        ensures
            r@ == "Exit the agent"@,
    {
        "Exit the agent"
    }

    pub fn arg_hint(&self) -> (r: Option<&'static str>)
        ensures
            r is None,
    {
        None
    }
}

// ---------------------------------------------------------------------------
// Results and errors
// ---------------------------------------------------------------------------

/// Interaction with the user failed.
#[derive(Debug, Clone, PartialEq, Eq)]
pub enum PromptError {
    /// The user cancelled or interrupted (Esc, Ctrl-C).
    Cancelled,
    /// Any other failure.
    Other(String),
}

/// Asks the user things while a command runs.
pub trait Prompter {
    /// Shows options; gives the label the user picked.
    fn select(&self, prompt: &str, options: Vec<String>, page_size: usize) -> Result<String, PromptError>;

    /// Asks for a line of text, with an optional help message.
    fn text(&self, prompt: &str, help: Option<&str>) -> Result<String, PromptError>;
}

/// What the prompt loop does after a command.
#[derive(Debug, Clone, Copy, PartialEq, Eq)]
pub enum CommandResult {
    /// Keep reading commands.
    Continue,
    /// Leave.
    Exit,
}

/// Why a command failed.
#[derive(Debug, Clone, PartialEq, Eq)]
pub enum CommandError {
    /// Something the user can put right (such as an unknown command).
    UserError(String),
    /// An internal failure (such as I/O).
    Internal(String),
}

/// How a command error reads.
pub open spec fn error_text(e: CommandError) -> Seq<char> {
    match e {
        CommandError::UserError(m) => m@,
        CommandError::Internal(m) => "internal error: "@ + m@,
    }
}

impl CommandError {
    /// How the error reads (see [`error_text`]).
    pub fn message(&self) -> (r: String)
        ensures
            r@ == error_text(*self),
    {
        match self {
            CommandError::UserError(m) => m.clone(),
            CommandError::Internal(m) => {
                let mut v: Vec<char> = Vec::new();
                push_str(&mut v, "internal error: ");
                push_str(&mut v, m.as_str());
                string_of(v.as_slice())
            },
        }
    }
}

// ---------------------------------------------------------------------------
// The registry
// ---------------------------------------------------------------------------

/// A registered command: its name (without `/`), description and argument
/// hint.
#[derive(Debug, Clone)]
pub struct CommandInfo {
    pub name: String,
    pub description: String,
    pub arg_hint: Option<String>,
}

/// Names of registered commands, in order.
pub open spec fn info_names(v: Seq<CommandInfo>) -> Seq<Seq<char>> {
    v.map_values(|c: CommandInfo| c.name@)
}

/// The available commands; no name is registered twice.
pub struct CommandRegistry {
    commands: Vec<CommandInfo>,
}

/// Index of the first whitespace character of `s`.
pub open spec fn first_ws(s: Seq<char>) -> Option<int> {
    if exists|i: int| 0 <= i < s.len() && crate::text::is_ws(#[trigger] s[i]) {
        Some(
            choose|i: int|
                (0 <= i < s.len() && crate::text::is_ws(#[trigger] s[i])) && forall|j: int|
                    0 <= j < i ==> !crate::text::is_ws(#[trigger] s[j]),
        )
    } else {
        None
    }
}

/// A command line split into command name and arguments: trimmed, it must
/// start with `/`; the name runs to the first whitespace, the arguments are
/// the rest, trimmed.
pub open spec fn split_command(input: Seq<char>) -> Option<(Seq<char>, Seq<char>)> {
    let t = trim(input);
    if t.len() > 0 && t[0] == '/' {
        let w = t.drop_first();
        match first_ws(w) {
            Some(i) => Some((w.take(i), trim(w.skip(i + 1)))),
            None => Some((w, Seq::empty())),
        }
    } else {
        None
    }
}

/// Message for a command name nobody registered.
pub open spec fn unknown_command_msg(name: Seq<char>) -> Seq<char> {
    "unknown command: /"@ + name + ".\nType /help for available commands."@
}

impl CommandRegistry {
    #[verifier::type_invariant]
    spec fn unique(self) -> bool {
        forall|i: int, j: int|
            0 <= i < j < self.commands@.len() ==> self.commands@[i].name@
                != self.commands@[j].name@
    }

    /// The registered commands, in registration order.
    pub closed spec fn commands(self) -> Seq<CommandInfo> {
        self.commands@
    }

    /// Names of the registered commands, in registration order.
    pub open spec fn names(self) -> Seq<Seq<char>> {
        info_names(self.commands())
    }

    /// An empty registry.
    pub fn new() -> (r: Self)
        ensures
            r.names() == Seq::<Seq<char>>::empty(),
    {
        let r = CommandRegistry { commands: Vec::new() };
        assert(r.names() =~= Seq::<Seq<char>>::empty());
        r
    }

    /// Whether a command of that name is registered.
    pub fn contains(&self, name: &str) -> (b: bool)
        ensures
            b == self.names().contains(name@),
    {
        let mut i: usize = 0;
        while i < self.commands.len()
            invariant
                i <= self.commands.len(),
                forall|j: int| 0 <= j < i ==> self.commands@[j].name@ != name@,
            decreases self.commands.len() - i,
        {
            if str_eq(self.commands[i].name.as_str(), name) {
                assert(info_names(self.commands@)[i as int] == name@);
                return true;
            }
            i += 1;
        }
        proof {
            if info_names(self.commands@).contains(name@) {
                let k = choose|k: int| 0 <= k < info_names(self.commands@).len() && info_names(self.commands@)[k] == name@;
                assert(self.commands@[k].name@ == name@);
            }
        }
        false
    }

    /// Registers a command; its name must be new (a second command of the
    /// same name is a programming error).
    pub fn register(&mut self, cmd: CommandInfo)
        requires
            !old(self).names().contains(cmd.name@),
        ensures
            final(self).commands() == old(self).commands().push(cmd),
            final(self).names() == old(self).names().push(cmd.name@),
    {
        proof {
            use_type_invariant(&*self);
        }
        let ghost before = self.commands@;
        let ghost name = cmd.name@;
        let mut v: Vec<CommandInfo> = Vec::new();
        std::mem::swap(&mut v, &mut self.commands);
        v.push(cmd);
        proof {
            assert(info_names(v@) =~= info_names(before).push(name));
            assert forall|i: int, j: int| 0 <= i < j < v@.len() implies v@[i].name@ != v@[j].name@ by {
                if j == before.len() {
                    assert(info_names(before)[i] == before[i].name@);
                }
            }
        }
        self.commands = v;
    }

    /// The command of that name.
    pub fn get(&self, name: &str) -> (r: Option<&CommandInfo>)
        ensures
            match r {
                Some(c) => c.name@ == name@ && self.commands().contains(*c) && self.names().contains(name@),
                None => !self.names().contains(name@),
            },
    {
        let mut i: usize = 0;
        while i < self.commands.len()
            invariant
                i <= self.commands.len(),
                forall|j: int| 0 <= j < i ==> self.commands@[j].name@ != name@,
            decreases self.commands.len() - i,
        {
            if str_eq(self.commands[i].name.as_str(), name) {
                assert(info_names(self.commands@)[i as int] == name@);
                assert(self.commands@[i as int] == self.commands@[i as int]);
                return Some(&self.commands[i]);
            }
            i += 1;
        }
        proof {
            if info_names(self.commands@).contains(name@) {
                let k = choose|k: int| 0 <= k < info_names(self.commands@).len() && info_names(self.commands@)[k] == name@;
                assert(self.commands@[k].name@ == name@);
            }
        }
        None
    }

    /// All commands, in registration order.
    pub fn all(&self) -> (r: &[CommandInfo])
        ensures
            r@ == self.commands(),
            info_names(r@) == self.names(),
    {
        self.commands.as_slice()
    }

    /// Resolves a typed command line (see [`split_command`]) to a registered
    /// command and its arguments.
    pub fn resolve(&self, input: &str) -> (r: Result<(&CommandInfo, String), CommandError>)
        ensures
            match split_command(input@) {
                None => r matches Err(CommandError::UserError(m)) && m@ == "not a command"@,
                Some((name, args)) => if self.names().contains(name) {
                    r matches Ok((c, a)) && c.name@ == name && a@ == args && self.commands().contains(*c)
                } else {
                    r matches Err(CommandError::UserError(m)) && m@ == unknown_command_msg(name)
                },
            },
    {
        let t = trim_str(input);
        if !(t.len() > 0 && t[0] == '/') {
            return Err(CommandError::UserError("not a command".to_owned()));
        }
        let w = crate::text::slice_to_vec(t.as_slice(), 1, t.len());
        assert(w@ =~= t@.drop_first());
        let mut i: usize = 0;
        while i < w.len() && !crate::text::is_whitespace(w[i])
            invariant
                i <= w.len(),
                forall|j: int| 0 <= j < i ==> !crate::text::is_ws(#[trigger] w@[j]),
            decreases w.len() - i,
        {
            i += 1;
        }
        let (name, args) = if i < w.len() {
            proof {
                let c = choose|c: int|
                    (0 <= c < w@.len() && crate::text::is_ws(#[trigger] w@[c])) && forall|j: int|
                        0 <= j < c ==> !crate::text::is_ws(#[trigger] w@[j]);
                assert(crate::text::is_ws(w@[i as int]));
                if c < i {
                    assert(!crate::text::is_ws(w@[c]));
                } else if c > i {
                    assert(!crate::text::is_ws(w@[i as int]));
                }
            }
            let n = crate::text::slice_to_vec(w.as_slice(), 0, i);
            let rest = crate::text::slice_to_vec(w.as_slice(), i + 1, w.len());
            let a = crate::text::trim_chars(rest.as_slice());
            assert(n@ =~= w@.take(i as int));
            assert(rest@ =~= w@.skip(i + 1));
            (string_of(n.as_slice()), string_of(a.as_slice()))
        } else {
            (string_of(w.as_slice()), String::new())
        };
        match self.get(name.as_str()) {
            Some(c) => Ok((c, args)),
            None => {
                let mut v: Vec<char> = Vec::new();
                push_str(&mut v, "unknown command: /");
                push_str(&mut v, name.as_str());
                push_str(&mut v, ".\nType /help for available commands.");
                Err(CommandError::UserError(string_of(v.as_slice())))
            },
        }
    }
}

fn info(name: &str, description: &str, arg_hint: Option<&str>) -> (c: CommandInfo)
    ensures
        c.name@ == name@,
        c.description@ == description@,
{
    CommandInfo {
        name: name.to_owned(),
        description: description.to_owned(),
        arg_hint: match arg_hint {
            Some(h) => Some(h.to_owned()),
            None => None,
        },
    }
}

/// The names of the built-in commands, in registration order.
pub open spec fn builtin_names() -> Seq<Seq<char>> {
    builtin_entries().map_values(|e: (Seq<char>, Seq<char>, Option<Seq<char>>)| e.0)
}

proof fn lemma_builtin_names_distinct()
    ensures
        forall|a: int, b: int|
            0 <= a < b < builtin_names().len() ==> builtin_names()[a] != builtin_names()[b],
{
    reveal_strlit("help");
    reveal_strlit("login");
    reveal_strlit("logout");
    reveal_strlit("model");
    reveal_strlit("new");
    reveal_strlit("compact");
    reveal_strlit("status");
    reveal_strlit("copy");
    reveal_strlit("export");
    reveal_strlit("quit");
    let n = builtin_names();
    assert(n =~= seq![
        "help"@,
        "login"@,
        "logout"@,
        "model"@,
        "new"@,
        "compact"@,
        "status"@,
        "copy"@,
        "export"@,
        "quit"@,
    ]);
    assert forall|a: int, b: int| 0 <= a < b < n.len() implies n[a] != n[b] by {
        assert(n[a].len() != n[b].len() || n[a][0] != n[b][0]);
    }
}

/// A registry with every built-in command.
pub fn build_registry() -> (r: CommandRegistry)
    ensures
        r.names() == builtin_names(),
{
    let entries = builtin_help_entries();
    let mut reg = CommandRegistry::new();
    let mut i: usize = 0;
    let ghost names = builtin_names();
    proof {
        lemma_builtin_names_distinct();
    }
    while i < entries.len()
        invariant
            i <= entries.len(),
            entries@.map_values(|e: HelpEntry| entry_view(e)) == builtin_entries(),
            names == builtin_names(),
            forall|a: int, b: int| 0 <= a < b < names.len() ==> names[a] != names[b],
            reg.names() == names.take(i as int),
        decreases entries.len() - i,
    {
        let e = entries[i];
        assert(entries@.map_values(|e: HelpEntry| entry_view(e))[i as int] == entry_view(entries@[i as int]));
        assert(names[i as int] == e.name@);
        proof {
            if reg.names().contains(e.name@) {
                let k = choose|k: int| 0 <= k < reg.names().len() && reg.names()[k] == e.name@;
                assert(names[k] == names[i as int]);
            }
        }
        reg.register(info(e.name, e.description, e.arg_hint));
        assert(names.take(i as int + 1) =~= names.take(i as int).push(names[i as int]));
        i += 1;
    }
    assert(names.take(10) =~= names);
    reg
}

// ---------------------------------------------------------------------------
// /help
// ---------------------------------------------------------------------------

/// `s` left-aligned in a field of `w` characters (`{:<w}`).
pub open spec fn pad_to(s: Seq<char>, w: nat) -> Seq<char> {
    if s.len() < w {
        s + Seq::new((w - s.len()) as nat, |i: int| ' ')
    } else {
        s
    }
}

/// A help entry's argument hint, empty when it has none.
pub open spec fn hint_text(h: Option<Seq<char>>) -> Seq<char> {
    match h {
        Some(x) => x,
        None => Seq::empty(),
    }
}

/// The line `/help name` prints for an entry.
pub open spec fn detail_line(e: (Seq<char>, Seq<char>, Option<Seq<char>>)) -> Seq<char> {
    let hint = hint_text(e.2);
    if hint.len() == 0 {
        "/"@ + e.0 + " \u{2014} "@ + e.1
    } else {
        "/"@ + e.0 + " "@ + hint + " \u{2014} "@ + e.1
    }
}

/// The line `/help` prints for an entry in the list.
pub open spec fn list_line(e: (Seq<char>, Seq<char>, Option<Seq<char>>)) -> Seq<char> {
    let hint = hint_text(e.2);
    if hint.len() == 0 {
        "  /"@ + pad_to(e.0, 12) + " "@ + e.1
    } else {
        "  /"@ + pad_to(e.0, 12) + " "@ + hint + " "@ + e.1
    }
}

/// The entry at `i` is the first named `name`.
pub open spec fn first_named_entry(es: Seq<(Seq<char>, Seq<char>, Option<Seq<char>>)>, name: Seq<char>, i: int) -> bool {
    0 <= i < es.len() && es[i].0 == name && forall|j: int| 0 <= j < i ==> #[trigger] es[j].0 != name
}

fn padded(s: &str, w: usize) -> (r: Vec<char>)
    ensures
        r@ == pad_to(s@, w as nat),
{
    let mut v = crate::text::chars_of(s);
    let ghost orig = v@;
    while v.len() < w
        invariant
            v@.len() <= w || v@ == orig,
            orig.len() <= v@.len(),
            v@.subrange(0, orig.len() as int) == orig,
            forall|i: int| orig.len() <= i < v@.len() ==> v@[i] == ' ',
        decreases w - v.len(),
    {
        v.push(' ');
    }
    proof {
        if orig.len() < w {
            assert(v@ =~= orig + Seq::new((w - orig.len()) as nat, |i: int| ' '));
        } else {
            assert(v@ =~= orig);
        }
    }
    v
}

impl HelpCommand {
    /// What `/help [command]` prints: the line of the named command, or the
    /// whole list under a heading.
    pub fn help_lines(&self, args: &str) -> (r: Result<Vec<String>, CommandError>)
        ensures
            ({
                let target = trim(args@);
                let es = builtin_entries();
                if target.len() > 0 {
                    if exists|i: int| 0 <= i < es.len() && #[trigger] es[i].0 == target {
                        exists|i: int|
                            #![trigger first_named_entry(es, target, i)]
                            first_named_entry(es, target, i) && (r matches Ok(lines)
                                && crate::capabilities::lines_view(lines@) == seq![detail_line(es[i])])
                    } else {
                        r matches Err(CommandError::UserError(m)) && m@ == "Unknown command: /"@ + target
                    }
                } else {
                    r matches Ok(lines) && crate::capabilities::lines_view(lines@) == seq![
                        "Available commands:"@,
                    ] + es.map_values(|e: (Seq<char>, Seq<char>, Option<Seq<char>>)| list_line(e))
                }
            }),
    {
        let entries = builtin_help_entries();
        let ghost es = builtin_entries();
        let target = trim_str(args);
        let mut out: Vec<String> = Vec::new();
        if target.len() > 0 {
            let mut i: usize = 0;
            while i < entries.len()
                invariant
                    i <= entries.len(),
                    entries@.map_values(|e: HelpEntry| entry_view(e)) == es,
                    es == builtin_entries(),
                    target@ == trim(args@),
                    target@.len() > 0,
                    out@.len() == 0,
                    forall|j: int| 0 <= j < i ==> #[trigger] es[j].0 != target@,
                decreases entries.len() - i,
            {
                let e = entries[i];
                assert(entries@.map_values(|e: HelpEntry| entry_view(e))[i as int] == entry_view(entries@[i as int]));
                let name = crate::text::chars_of(e.name);
                if crate::text::chars_eq(name.as_slice(), target.as_slice()) {
                    let mut v: Vec<char> = Vec::new();
                    push_str(&mut v, "/");
                    push_str(&mut v, e.name);
                    let hint: &str = match e.arg_hint {
                        Some(h) => h,
                        None => "",
                    };
                    proof {
                        if e.arg_hint is None {
                            reveal_strlit("");
                        }
                    }
                    if hint.is_empty() {
                        push_str(&mut v, " \u{2014} ");
                    } else {
                        push_str(&mut v, " ");
                        push_str(&mut v, hint);
                        push_str(&mut v, " \u{2014} ");
                    }
                    push_str(&mut v, e.description);
                    out.push(string_of(v.as_slice()));
                    assert(first_named_entry(es, target@, i as int));
                    assert(crate::capabilities::lines_view(out@) =~= seq![detail_line(es[i as int])]);
                    return Ok(out);
                }
                i += 1;
            }
            let mut v: Vec<char> = Vec::new();
            push_str(&mut v, "Unknown command: /");
            crate::text::push_all(&mut v, target.as_slice());
            return Err(CommandError::UserError(string_of(v.as_slice())));
        }
        out.push("Available commands:".to_owned());
        let mut i: usize = 0;
        while i < entries.len()
            invariant
                i <= entries.len(),
                entries@.map_values(|e: HelpEntry| entry_view(e)) == es,
                crate::capabilities::lines_view(out@) == seq!["Available commands:"@] + es.take(
                    i as int,
                ).map_values(|e: (Seq<char>, Seq<char>, Option<Seq<char>>)| list_line(e)),
            decreases entries.len() - i,
        {
            let e = entries[i];
            assert(entries@.map_values(|e: HelpEntry| entry_view(e))[i as int] == entry_view(entries@[i as int]));
            let ghost before = out@;
            let mut v: Vec<char> = Vec::new();
            push_str(&mut v, "  /");
            let p = padded(e.name, 12);
            crate::text::push_all(&mut v, p.as_slice());
            push_str(&mut v, " ");
            let hint: &str = match e.arg_hint {
                Some(h) => h,
                None => "",
            };
            proof {
                if e.arg_hint is None {
                    reveal_strlit("");
                }
            }
            if !hint.is_empty() {
                push_str(&mut v, hint);
                push_str(&mut v, " ");
            }
            push_str(&mut v, e.description);
            out.push(string_of(v.as_slice()));
            proof {
                let f = |e: (Seq<char>, Seq<char>, Option<Seq<char>>)| list_line(e);
                assert(es.take(i as int + 1).map_values(f) =~= es.take(i as int).map_values(f).push(
                    list_line(es[i as int]),
                ));
                assert(crate::capabilities::lines_view(out@) =~= crate::capabilities::lines_view(
                    before,
                ).push(list_line(es[i as int])));
            }
            i += 1;
        }
        assert(es.take(es.len() as int) =~= es);
        Ok(out)
    }
}

} // verus!
