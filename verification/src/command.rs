//! The command line of the compound file tool: a command name, the compound
//! file, a path inside it and a destination.
use vstd::prelude::*;
use vstd::string::StrSliceExecFns;

verus! {

/// The code of `c`, with ASCII upper case letters lowered.
pub open spec fn ascii_lower(c: char) -> u32 {
    if 65 <= c as u32 <= 90 {
        (c as u32 + 32) as u32
    } else {
        c as u32
    }
}

/// Are `a` and `b` the same text, but for the case of ASCII letters?
pub open spec fn eq_ignore_ascii_case_spec(a: Seq<char>, b: Seq<char>) -> bool {
    a.len() == b.len() && forall|i: int| 0 <= i < a.len() ==> ascii_lower(a[i]) == ascii_lower(b[i])
}

/// Are `a` and `b` the same text, but for the case of ASCII letters?
pub fn eq_ignore_ascii_case(a: &str, b: &str) -> (r: bool)
    ensures
        r == eq_ignore_ascii_case_spec(a@, b@),
{
    let n = a.unicode_len();
    if n != b.unicode_len() {
        return false;
    }
    let mut i: usize = 0;
    while i < n
        invariant
            i <= n,
            n == a@.len(),
            n == b@.len(),
            forall|j: int| 0 <= j < i ==> ascii_lower(a@[j]) == ascii_lower(b@[j]),
        decreases n - i,
    {
        let x = a.get_char(i) as u32;
        let y = b.get_char(i) as u32;
        let x = if 65 <= x && x <= 90 {
            x + 32
        } else {
            x
        };
        let y = if 65 <= y && y <= 90 {
            y + 32
        } else {
            y
        };
        if x != y {
            return false;
        }
        i = i + 1;
    }
    true
}

/// The argument at `i`, if there is one.
pub open spec fn arg_at(args: Seq<Seq<char>>, i: int) -> Option<Seq<char>> {
    if 0 <= i < args.len() {
        Some(args[i])
    } else {
        None
    }
}

/// What the arguments from `i` on make of the command `st` (its name,
/// compound file, directory path and destination): `-f`, `-d` and `-o`
/// (in any case) set the file, path and destination to the argument that
/// follows them (none at the end); another argument fills the first of the
/// four that is still unset; when all four are set, the rest is ignored.
pub open spec fn parse_spec(
    args: Seq<Seq<char>>,
    i: int,
    st: (Option<Seq<char>>, Option<Seq<char>>, Option<Seq<char>>, Option<Seq<char>>),
) -> (Option<Seq<char>>, Option<Seq<char>>, Option<Seq<char>>, Option<Seq<char>>)
    decreases args.len() + 1 - i,
{
    if i < 0 || i >= args.len() {
        st
    } else {
        let a = args[i];
        if eq_ignore_ascii_case_spec(a, seq!['-', 'f']) {
            parse_spec(args, i + 2, (st.0, arg_at(args, i + 1), st.2, st.3))
        } else if eq_ignore_ascii_case_spec(a, seq!['-', 'd']) {
            parse_spec(args, i + 2, (st.0, st.1, arg_at(args, i + 1), st.3))
        } else if eq_ignore_ascii_case_spec(a, seq!['-', 'o']) {
            parse_spec(args, i + 2, (st.0, st.1, st.2, arg_at(args, i + 1)))
        } else if st.0 is None {
            parse_spec(args, i + 1, (Some(a), st.1, st.2, st.3))
        } else if st.1 is None {
            parse_spec(args, i + 1, (st.0, Some(a), st.2, st.3))
        } else if st.2 is None {
            parse_spec(args, i + 1, (st.0, st.1, Some(a), st.3))
        } else if st.3 is None {
            parse_spec(args, i + 1, (st.0, st.1, st.2, Some(a)))
        } else {
            st
        }
    }
}

/// The text of an optional string.
pub open spec fn opt_view(o: Option<String>) -> Option<Seq<char>> {
    match o {
        Some(s) => Some(s@),
        None => None,
    }
}

/// The four parts of a command line.
#[derive(Debug, Default)]
pub struct Command {
    pub name: Option<String>,
    pub compound_file: Option<String>,
    pub directory_path: Option<String>,
    pub destination: Option<String>,
}

/// The commands of the tool.
#[derive(Debug, Clone, Copy, PartialEq, Eq, Structural)]
pub enum CommandKind {
    /// Lists the entries of a storage.
    List,
    /// Shows a storage and its descendants as a tree.
    Tree,
    /// Writes out the data of a stream.
    Cat,
    /// Copies a storage and its descendants into the file system.
    Unpack,
}

/// The command that `name` names, in any case.
pub open spec fn kind_spec(name: Seq<char>) -> Option<CommandKind> {
    if eq_ignore_ascii_case_spec(name, seq!['l', 'i', 's', 't']) {
        Some(CommandKind::List)
    } else if eq_ignore_ascii_case_spec(name, seq!['t', 'r', 'e', 'e']) {
        Some(CommandKind::Tree)
    } else if eq_ignore_ascii_case_spec(name, seq!['c', 'a', 't']) {
        Some(CommandKind::Cat)
    } else if eq_ignore_ascii_case_spec(name, seq!['u', 'n', 'p', 'a', 'c', 'k']) {
        Some(CommandKind::Unpack)
    } else {
        None
    }
}

impl Command {
    /// The parts of the command, as text.
    pub open spec fn parts(&self) -> (
        Option<Seq<char>>,
        Option<Seq<char>>,
        Option<Seq<char>>,
        Option<Seq<char>>,
    ) {
        (
            opt_view(self.name),
            opt_view(self.compound_file),
            opt_view(self.directory_path),
            opt_view(self.destination),
        )
    }

    /// The command that the arguments `arguments` (the program's name left
    /// out) make (see `parse_spec`).
    pub fn from_arguments(arguments: Vec<String>) -> (c: Command)
        ensures
            c.parts() == parse_spec(
                arguments@.map_values(|s: String| s@),
                0,
                (None, None, None, None),
            ),
    {
        let ghost args = arguments@.map_values(|s: String| s@);
        let mut command = Command {
            name: None,
            compound_file: None,
            directory_path: None,
            destination: None,
        };
        proof {
            reveal_strlit("-f");
            reveal_strlit("-d");
            reveal_strlit("-o");
            assert("-f"@ =~= seq!['-', 'f']);
            assert("-d"@ =~= seq!['-', 'd']);
            assert("-o"@ =~= seq!['-', 'o']);
        }
        let n = arguments.len();
        let mut i: usize = 0;
        while i < n
            invariant
                n == arguments@.len(),
                args == arguments@.map_values(|s: String| s@),
                "-f"@ == seq!['-', 'f'],
                "-d"@ == seq!['-', 'd'],
                "-o"@ == seq!['-', 'o'],
                parse_spec(args, i as int, command.parts()) == parse_spec(
                    args,
                    0,
                    (None, None, None, None),
                ),
            decreases n - i,
        {
            let argument = arguments[i].as_str();
            assert(argument@ == args[i as int]);
            let next = if i + 1 < n {
                Some(arguments[i + 1].clone())
            } else {
                None
            };
            assert(opt_view(next) == arg_at(args, i + 1));
            let ghost st = command.parts();
            if eq_ignore_ascii_case(argument, "-f") {
                assert(parse_spec(args, i as int, st) == parse_spec(args, i + 2, (st.0, arg_at(args, i + 1), st.2, st.3)));
                command.compound_file = next;
                i = if i + 1 < n {
                    i + 2
                } else {
                    n
                };
            } else if eq_ignore_ascii_case(argument, "-d") {
                assert(parse_spec(args, i as int, st) == parse_spec(args, i + 2, (st.0, st.1, arg_at(args, i + 1), st.3)));
                command.directory_path = next;
                i = if i + 1 < n {
                    i + 2
                } else {
                    n
                };
            } else if eq_ignore_ascii_case(argument, "-o") {
                assert(parse_spec(args, i as int, st) == parse_spec(args, i + 2, (st.0, st.1, st.2, arg_at(args, i + 1))));
                command.destination = next;
                i = if i + 1 < n {
                    i + 2
                } else {
                    n
                };
            } else if command.name.is_none() {
                command.name = Some(arguments[i].clone());
                i = i + 1;
            } else if command.compound_file.is_none() {
                command.compound_file = Some(arguments[i].clone());
                i = i + 1;
            } else if command.directory_path.is_none() {
                command.directory_path = Some(arguments[i].clone());
                i = i + 1;
            } else if command.destination.is_none() {
                command.destination = Some(arguments[i].clone());
                i = i + 1;
            } else {
                return command;
            }
        }
        command
    }

    /// The command that the name names (see `kind_spec`); `None` where there
    /// is no name or the name is unknown.
    pub fn kind(&self) -> (r: Option<CommandKind>)
        ensures
            r == match opt_view(self.name) {
                Some(name) => kind_spec(name),
                None => None,
            },
    {
        proof {
            reveal_strlit("list");
            reveal_strlit("tree");
            reveal_strlit("cat");
            reveal_strlit("unpack");
            assert("list"@ =~= seq!['l', 'i', 's', 't']);
            assert("tree"@ =~= seq!['t', 'r', 'e', 'e']);
            assert("cat"@ =~= seq!['c', 'a', 't']);
            assert("unpack"@ =~= seq!['u', 'n', 'p', 'a', 'c', 'k']);
        }
        match &self.name {
            None => None,
            Some(name) => {
                let name = name.as_str();
                if eq_ignore_ascii_case(name, "list") {
                    Some(CommandKind::List)
                } else if eq_ignore_ascii_case(name, "tree") {
                    Some(CommandKind::Tree)
                } else if eq_ignore_ascii_case(name, "cat") {
                    Some(CommandKind::Cat)
                } else if eq_ignore_ascii_case(name, "unpack") {
                    Some(CommandKind::Unpack)
                } else {
                    None
                }
            },
        }
    }
}

} // verus!
