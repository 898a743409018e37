use vstd::prelude::*;
use crate::ipc::{has_prefix, save_as_arg, set_text_arg, starts_with_chars, switch_tab_arg};
use crate::names::{friendly_name_to_qualified, qualified_name};
use crate::text::{chars_of, same_text, string_of};

verus! {

/// What the command line asks for: files to open, a command to send to the
/// running editor, whether to list the commands, and the arguments that
/// were not understood.
pub struct CliArgs {
    pub files: Vec<String>,
    pub command: Option<String>,
    pub list_commands: bool,
    pub unknown: Vec<String>,
}

/// The abstract value of `CliArgs`.
pub struct CliArgsView {
    pub files: Seq<Seq<char>>,
    pub command: Option<Seq<char>>,
    pub list_commands: bool,
    pub unknown: Seq<Seq<char>>,
}

impl View for CliArgs {
    type V = CliArgsView;

    open spec fn view(&self) -> CliArgsView {
        CliArgsView {
            files: self.files.deep_view(),
            command: self.command.deep_view(),
            list_commands: self.list_commands,
            unknown: self.unknown.deep_view(),
        }
    }
}

/// `--command`.
pub open spec fn command_flag() -> Seq<char> {
    seq!['-', '-', 'c', 'o', 'm', 'm', 'a', 'n', 'd']
}

/// `-c`.
pub open spec fn command_short_flag() -> Seq<char> {
    seq!['-', 'c']
}

/// `--list-commands`.
pub open spec fn list_flag() -> Seq<char> {
    seq!['-', '-', 'l', 'i', 's', 't', '-', 'c', 'o', 'm', 'm', 'a', 'n', 'd', 's']
}

/// `a` starts with `-`.
pub open spec fn is_option(a: Seq<char>) -> bool {
    a.len() > 0 && a[0] == '-'
}

/// Nothing asked yet.
pub open spec fn no_args() -> CliArgsView {
    CliArgsView {
        files: Seq::empty(),
        command: None,
        list_commands: false,
        unknown: Seq::empty(),
    }
}

/// The arguments from index `i` on, read into `acc`: `--command` or `-c`
/// takes the next argument as the command (none when it is the last one),
/// `--list-commands` asks for the list, an argument that does not start
/// with `-` is a file, and any other is not understood.
pub open spec fn cli_from(args: Seq<Seq<char>>, i: int, acc: CliArgsView) -> CliArgsView
    decreases args.len() - i,
{
    if i < 0 || i >= args.len() {
        acc
    } else if args[i] == command_flag() || args[i] == command_short_flag() {
        if i + 1 < args.len() {
            cli_from(
                args,
                i + 2,
                CliArgsView {
                    files: acc.files,
                    command: Some(args[i + 1]),
                    list_commands: acc.list_commands,
                    unknown: acc.unknown,
                },
            )
        } else {
            cli_from(
                args,
                i + 1,
                CliArgsView {
                    files: acc.files,
                    command: None,
                    list_commands: acc.list_commands,
                    unknown: acc.unknown,
                },
            )
        }
    } else if args[i] == list_flag() {
        cli_from(
            args,
            i + 1,
            CliArgsView {
                files: acc.files,
                command: acc.command,
                list_commands: true,
                unknown: acc.unknown,
            },
        )
    } else if !is_option(args[i]) {
        cli_from(
            args,
            i + 1,
            CliArgsView {
                files: acc.files.push(args[i]),
                command: acc.command,
                list_commands: acc.list_commands,
                unknown: acc.unknown,
            },
        )
    } else {
        cli_from(
            args,
            i + 1,
            CliArgsView {
                files: acc.files,
                command: acc.command,
                list_commands: acc.list_commands,
                unknown: acc.unknown.push(args[i]),
            },
        )
    }
}

/// The command line `args` read after the program name (`args[0]`).
pub open spec fn parsed_cli(args: Seq<Seq<char>>) -> CliArgsView {
    cli_from(args, 1, no_args())
}

/// A copy of a string.
fn copy_string(s: &String) -> (r: String)
    ensures
        r@ == s@,
{
    s.clone()
}

/// Reads the command line `args`, whose first item is the program name.
pub fn parse_cli_args(args: &Vec<String>) -> (parsed: CliArgs)
    ensures
        parsed@ == parsed_cli(args.deep_view()),
{
    let ghost a = args.deep_view();
    let mut files: Vec<String> = Vec::new();
    let mut command: Option<String> = None;
    let mut list_commands = false;
    let mut unknown: Vec<String> = Vec::new();
    let mut i: usize = 1;
    proof {
        reveal_strlit("--command");
        reveal_strlit("-c");
        reveal_strlit("--list-commands");
        assert("--command"@ =~= command_flag());
        assert("-c"@ =~= command_short_flag());
        assert("--list-commands"@ =~= list_flag());
        assert(files.deep_view() =~= Seq::<Seq<char>>::empty());
        assert(unknown.deep_view() =~= Seq::<Seq<char>>::empty());
    }
    while i < args.len()
        invariant
            a == args.deep_view(),
            a.len() == args@.len(),
            1 <= i,
            i <= args@.len() || args@.len() == 0,
            "--command"@ == command_flag(),
            "-c"@ == command_short_flag(),
            "--list-commands"@ == list_flag(),
            parsed_cli(a) == cli_from(
                a,
                i as int,
                CliArgsView {
                    files: files.deep_view(),
                    command: command.deep_view(),
                    list_commands,
                    unknown: unknown.deep_view(),
                },
            ),
        decreases args.len() - i,
    {
        let arg = &args[i];
        proof {
            assert(a[i as int] == arg@);
        }
        if same_text(arg.as_str(), "--command") || same_text(arg.as_str(), "-c") {
            if i + 1 < args.len() {
                proof {
                    assert(a[i + 1] == args@[i + 1]@);
                }
                command = Some(copy_string(&args[i + 1]));
                i = i + 2;
            } else {
                command = None;
                i = i + 1;
            }
        } else if same_text(arg.as_str(), "--list-commands") {
            list_commands = true;
            i = i + 1;
        } else {
            let cs = chars_of(arg.as_str());
            let ghost before_files = files.deep_view();
            let ghost before_unknown = unknown.deep_view();
            if cs.len() == 0 || cs[0] != '-' {
                files.push(copy_string(arg));
                proof {
                    assert(files.deep_view() =~= before_files.push(a[i as int]));
                }
            } else {
                unknown.push(copy_string(arg));
                proof {
                    assert(unknown.deep_view() =~= before_unknown.push(a[i as int]));
                }
            }
            i = i + 1;
        }
    }
    let parsed = CliArgs { files, command, list_commands, unknown };
    proof {
        assert(parsed@ == cli_from(a, i as int, parsed@));
    }
    parsed
}

/// The message text for a command given on the command line: commands that
/// carry an argument (`set-text:`, `save-as:`, `switch-tab:`) stay as they
/// are; any other is taken as an action name (see `qualified_name`).
pub fn qualified_command(command: &str, action_names: &Vec<String>) -> (q: String)
    ensures
        q@ == if has_prefix(command@, set_text_arg()) || has_prefix(command@, save_as_arg())
            || has_prefix(command@, switch_tab_arg()) {
            command@
        } else {
            qualified_name(command@, action_names.deep_view())
        },
{
    let cs = chars_of(command);
    let set_text = vec!['s', 'e', 't', '-', 't', 'e', 'x', 't', ':'];
    let save_as = vec!['s', 'a', 'v', 'e', '-', 'a', 's', ':'];
    let switch_tab = vec!['s', 'w', 'i', 't', 'c', 'h', '-', 't', 'a', 'b', ':'];
    proof {
        assert(set_text@ =~= set_text_arg());
        assert(save_as@ =~= save_as_arg());
        assert(switch_tab@ =~= switch_tab_arg());
    }
    if starts_with_chars(&cs, &set_text) || starts_with_chars(&cs, &save_as) || starts_with_chars(
        &cs,
        &switch_tab,
    ) {
        string_of(cs.as_slice())
    } else {
        friendly_name_to_qualified(command, action_names)
    }
}

} // verus!
