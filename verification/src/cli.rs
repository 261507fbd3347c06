//! The command-line client: which request each command sends, what it prints
//! of the reply, and the interactive shell's completions and hints.
use vstd::prelude::*;
use vstd::string::*;
use crate::protocol::ReqType;

verus! {

/// A command of the client.
#[derive(Clone, Debug)]
pub enum Commands {
    Get { key: String },
    /// The `set` command.
    Put { key: String, value: String },
    Del { key: String },
    Exists { key: String },
    Total,
}

/// The parsed command line: a command, or none to start the shell.
pub struct Cmd {
    pub commands: Option<Commands>,
}

/// The request kind, key and value a command sends.
pub open spec fn command_request(c: Commands) -> (ReqType, Option<Seq<char>>, Option<Seq<char>>) {
    match c {
        Commands::Get { key } => (ReqType::GET, Some(key@), None),
        Commands::Put { key, value } => (ReqType::SET, Some(key@), Some(value@)),
        Commands::Del { key } => (ReqType::DEL, Some(key@), None),
        Commands::Exists { key } => (ReqType::EXISTS, Some(key@), None),
        Commands::Total => (ReqType::TOTAL, None, None),
    }
}

/// The line a command prints for the value of the reply (none when the
/// request failed or the reply had no value): the value itself, or else a
/// word that depends on the command, or nothing.
pub open spec fn reply_line(c: Commands, reply: Option<Seq<char>>) -> Option<Seq<char>> {
    match reply {
        Some(v) => Some(v),
        None => match c {
            Commands::Get { .. } => Some("DONT EXISTS"@),
            Commands::Put { .. } => Some("DONE"@),
            Commands::Del { .. } => Some("DONE"@),
            Commands::Exists { .. } => None,
            Commands::Total => None,
        },
    }
}

impl Commands {
    /// The request kind, key and value this command sends.
    pub fn request(self) -> (r: (ReqType, Option<String>, Option<String>))
        ensures
            (r.0, crate::protocol::opt_text(r.1), crate::protocol::opt_text(r.2))
                == command_request(self),
    {
        match self {
            Commands::Get { key } => (ReqType::GET, Some(key), None),
            Commands::Put { key, value } => (ReqType::SET, Some(key), Some(value)),
            Commands::Del { key } => (ReqType::DEL, Some(key), None),
            Commands::Exists { key } => (ReqType::EXISTS, Some(key), None),
            Commands::Total => (ReqType::TOTAL, None, None),
        }
    }

    /// The line this command prints for the value of its reply.
    pub fn reply_line(&self, reply: Option<String>) -> (line: Option<String>)
        ensures
            crate::protocol::opt_text(line) == reply_line(*self, crate::protocol::opt_text(reply)),
    {
        match reply {
            Some(v) => Some(v),
            None => match self {
                Commands::Get { .. } => Some("DONT EXISTS".to_owned()),
                Commands::Put { .. } => Some("DONE".to_owned()),
                Commands::Del { .. } => Some("DONE".to_owned()),
                Commands::Exists { .. } => None,
                Commands::Total => None,
            },
        }
    }
}

/// How many commands the shell knows.
pub open spec fn command_count() -> int {
    5
}

/// The name of the `i`-th command the shell knows.
pub open spec fn command_name(i: int) -> Seq<char> {
    if i == 0 {
        "get"@
    } else if i == 1 {
        "set"@
    } else if i == 2 {
        "del"@
    } else if i == 3 {
        "exists"@
    } else {
        "total"@
    }
}

/// The usage line of the `i`-th command the shell knows.
pub open spec fn command_usage(i: int) -> Seq<char> {
    if i == 0 {
        "get <key>"@
    } else if i == 1 {
        "set <key> <value>"@
    } else if i == 2 {
        "del <key>"@
    } else if i == 3 {
        "exists <key>"@
    } else {
        "total"@
    }
}

/// The name and usage line of the `i`-th command.
fn command_entry(i: usize) -> (r: (&'static str, &'static str))
    requires
        i < command_count(),
    ensures
        r.0@ == command_name(i as int),
        r.1@ == command_usage(i as int),
{
    if i == 0 {
        ("get", "get <key>")
    } else if i == 1 {
        ("set", "set <key> <value>")
    } else if i == 2 {
        ("del", "del <key>")
    } else if i == 3 {
        ("exists", "exists <key>")
    } else {
        ("total", "total")
    }
}

/// Whether `s` starts with `p`.
fn starts_with(s: &str, p: &str) -> (b: bool)
    ensures
        b == p@.is_prefix_of(s@),
{
    let pl = p.unicode_len();
    let sl = s.unicode_len();
    if pl > sl {
        return false;
    }
    let mut i: usize = 0;
    while i < pl
        invariant
            i <= pl <= sl,
            pl == p@.len(),
            sl == s@.len(),
            forall|j: int| 0 <= j < i ==> p@[j] == s@[j],
        decreases pl - i,
    {
        if p.get_char(i) != s.get_char(i) {
            return false;
        }
        i = i + 1;
    }
    assert(p@ =~= s@.subrange(0, p@.len() as int));
    true
}

/// The completions of `word` among the first `n` commands, in order: for
/// each command whose name starts with `word`, its usage line (shown) and its
/// name (inserted).
pub open spec fn completions(word: Seq<char>, n: int) -> Seq<(Seq<char>, Seq<char>)>
    decreases n,
{
    if n <= 0 {
        Seq::empty()
    } else {
        completions(word, n - 1) + if word.is_prefix_of(command_name(n - 1)) {
            seq![(command_usage(n - 1), command_name(n - 1))]
        } else {
            Seq::empty()
        }
    }
}

/// The first command, from the `i`-th on, whose name starts with `word`.
pub open spec fn first_command(word: Seq<char>, i: int) -> Option<int>
    decreases command_count() - i,
{
    if i >= command_count() || i < 0 {
        None
    } else if word.is_prefix_of(command_name(i)) {
        Some(i)
    } else {
        first_command(word, i + 1)
    }
}

/// The hint the shell shows after `word`: the rest of the usage line of the
/// first command that `word` begins, and none for an empty word.
pub open spec fn hint_text(word: Seq<char>) -> Option<Seq<char>> {
    if word.len() == 0 {
        None
    } else {
        match first_command(word, 0) {
            Some(i) => Some(command_usage(i).subrange(word.len() as int, command_usage(i).len() as int)),
            None => None,
        }
    }
}

/// The interactive shell's helper: completes and hints command names.
pub struct ShellHelper;

impl ShellHelper {
    /// The completions of the text before the cursor, as pairs of the usage
    /// line to show and the command name to insert.
    pub fn completions(&self, word: &str) -> (r: Vec<(String, String)>)
        ensures
            r@.map_values(|p: (String, String)| (p.0@, p.1@)) == completions(word@, command_count()),
    {
        let mut r: Vec<(String, String)> = Vec::new();
        let mut i: usize = 0;
        while i < 5
            invariant
                i <= 5,
                r@.map_values(|p: (String, String)| (p.0@, p.1@)) == completions(word@, i as int),
            decreases 5 - i,
        {
            let (name, usage) = command_entry(i);
            if starts_with(name, word) {
                r.push((usage.to_owned(), name.to_owned()));
            }
            assert(r@.map_values(|p: (String, String)| (p.0@, p.1@)) =~= completions(
                word@,
                i + 1,
            ));
            i = i + 1;
        }
        r
    }

    /// The hint shown after the trimmed line `word`.
    pub fn hint(&self, word: &str) -> (h: Option<String>)
        ensures
            crate::protocol::opt_text(h) == hint_text(word@),
    {
        if word.unicode_len() == 0 {
            return None;
        }
        let mut i: usize = 0;
        while i < 5
            invariant
                i <= 5,
                word@.len() > 0,
                first_command(word@, 0) == first_command(word@, i as int),
            decreases 5 - i,
        {
            let (name, usage) = command_entry(i);
            if starts_with(name, word) {
                proof {
                    reveal_strlit("get");
                    reveal_strlit("set");
                    reveal_strlit("del");
                    reveal_strlit("exists");
                    reveal_strlit("total");
                    reveal_strlit("get <key>");
                    reveal_strlit("set <key> <value>");
                    reveal_strlit("del <key>");
                    reveal_strlit("exists <key>");
                }
                let rest = usage.substring_char(word.unicode_len(), usage.unicode_len());
                return Some(rest.to_owned());
            }
            i = i + 1;
        }
        None
    }
}

/// Whenever the reply carries a value, every command prints exactly that
/// value.
pub proof fn lemma_reply_value_is_printed(c: Commands, v: Seq<char>)
    ensures
        reply_line(c, Some(v)) == Some(v),
{
}

/// A command name is the start of its usage line.
proof fn lemma_name_starts_usage(i: int)
    requires
        0 <= i < command_count(),
    ensures
        command_name(i).is_prefix_of(command_usage(i)),
{
    reveal_strlit("get");
    reveal_strlit("set");
    reveal_strlit("del");
    reveal_strlit("exists");
    reveal_strlit("total");
    reveal_strlit("get <key>");
    reveal_strlit("set <key> <value>");
    reveal_strlit("del <key>");
    reveal_strlit("exists <key>");
    let n = command_name(i);
    let u = command_usage(i);
    assert(n =~= u.subrange(0, n.len() as int));
}

proof fn lemma_first_command_finds(w: Seq<char>, j: int, i: int)
    requires
        0 <= j <= i < command_count(),
        w.is_prefix_of(command_name(i)),
        forall|jj: int| j <= jj < i ==> !w.is_prefix_of(#[trigger] command_name(jj)),
    ensures
        first_command(w, j) == Some(i),
    decreases i - j,
{
    if j < i {
        lemma_first_command_finds(w, j + 1, i);
    }
}

/// Every command is hinted: a non-empty start `w` of a command's name that
/// starts no earlier name gets a hint, and `w` followed by the hint is that
/// command's usage line.
pub proof fn lemma_every_command_hinted(i: int, w: Seq<char>)
    requires
        0 <= i < command_count(),
        w.len() > 0,
        w.is_prefix_of(command_name(i)),
        forall|j: int| 0 <= j < i ==> !w.is_prefix_of(#[trigger] command_name(j)),
    ensures
        hint_text(w) is Some,
        w + hint_text(w)->Some_0 == command_usage(i),
{
    lemma_first_command_finds(w, 0, i);
    lemma_name_starts_usage(i);
    let u = command_usage(i);
    let n = command_name(i);
    assert(w + u.subrange(w.len() as int, u.len() as int) =~= u) by {
        assert forall|k: int| 0 <= k < w.len() implies w[k] == u[k] by {
            assert(w[k] == n[k]);
            assert(n[k] == u[k]);
        }
    }
}

} // verus!
