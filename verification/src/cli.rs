//! The decisions of the command line.

use vstd::prelude::*;
use vstd::string::*;

verus! {

/// What the command line asks for. Arguments are named by their index.
#[derive(Clone, Copy, Debug, PartialEq, Eq, Structural)]
pub enum Command {
    /// Start the read-eval-print loop.
    Repl,
    /// Print the help text.
    Help,
    /// Compile a source file ahead of time. Without an output argument the
    /// output is named after the input.
    AotCompile { input: usize, output: Option<usize> },
    /// Evaluate a source file.
    RunFile { path: usize },
    /// Refuse: the flag needs a file name behind it.
    MissingInput { flag: usize },
    /// Refuse: the output flag needs a file name behind it.
    MissingOutput,
}

/// Whether an argument asks for ahead-of-time compilation.
pub open spec fn is_aot_flag(arg: Seq<char>) -> bool {
    arg == "--aot-compile"@ || arg == "--aot"@
}

/// Whether an argument asks for the help text.
pub open spec fn is_help_flag(arg: Seq<char>) -> bool {
    arg == "--help"@ || arg == "-h"@
}

/// What an argument behind the program's name asks for.
pub open spec fn command_at(args: Seq<String>, i: int) -> Command {
    if is_aot_flag(args[i]@) {
        if i + 1 >= args.len() {
            Command::MissingInput { flag: i as usize }
        } else if i + 2 < args.len() && args[i + 2]@ == "-o"@ {
            if i + 3 >= args.len() {
                Command::MissingOutput
            } else {
                Command::AotCompile {
                    input: (i + 1) as usize,
                    output: Some((i + 3) as usize),
                }
            }
        } else {
            Command::AotCompile { input: (i + 1) as usize, output: None }
        }
    } else {
        Command::RunFile { path: i as usize }
    }
}

/// What the arguments from one on ask for: each file is evaluated, up to the
/// first flag, which ends the list.
pub open spec fn commands_from(args: Seq<String>, i: int) -> Seq<Command>
    decreases args.len() - i,
{
    if i >= args.len() {
        Seq::empty()
    } else if command_at(args, i) is RunFile {
        seq![command_at(args, i)] + commands_from(args, i + 1)
    } else {
        seq![command_at(args, i)]
    }
}

/// What the command line asks for.
pub open spec fn command_list(args: Seq<String>) -> Seq<Command> {
    if args.len() < 2 {
        seq![Command::Repl]
    } else if is_help_flag(args[1]@) {
        seq![Command::Help]
    } else {
        commands_from(args, 1)
    }
}

fn text_is(text: &String, other: &str) -> (same: bool)
    ensures
        same == (text@ == other@),
{
    *text == other.to_string()
}

fn command(args: &Vec<String>, i: usize) -> (command: Command)
    requires
        i < args@.len(),
    ensures
        command == command_at(args@, i as int),
{
    let len = args.len();
    if text_is(&args[i], "--aot-compile") || text_is(&args[i], "--aot") {
        if len - i < 2 {
            Command::MissingInput { flag: i }
        } else if len - i > 2 && text_is(&args[i + 2], "-o") {
            if len - i < 4 {
                Command::MissingOutput
            } else {
                Command::AotCompile { input: i + 1, output: Some(i + 3) }
            }
        } else {
            Command::AotCompile { input: i + 1, output: None }
        }
    } else {
        Command::RunFile { path: i }
    }
}

/// Reads the command line; the first argument is the name of the program.
pub fn commands(args: &Vec<String>) -> (list: Vec<Command>)
    ensures
        list@ == command_list(args@),
{
    let mut list: Vec<Command> = Vec::new();
    if args.len() < 2 {
        list.push(Command::Repl);
        assert(list@ =~= seq![Command::Repl]);
        return list;
    }
    if text_is(&args[1], "--help") || text_is(&args[1], "-h") {
        list.push(Command::Help);
        assert(list@ =~= seq![Command::Help]);
        return list;
    }
    let mut i: usize = 1;
    assert(list@ + commands_from(args@, 1) =~= commands_from(args@, 1));
    while i < args.len()
        invariant
            1 <= i <= args@.len(),
            args@.len() >= 2,
            !is_help_flag(args@[1]@),
            list@ + commands_from(args@, i as int) == commands_from(args@, 1),
        decreases args@.len() - i,
    {
        let next = command(args, i);
        let ghost before = list@;
        list.push(next);
        match next {
            Command::RunFile { .. } => {
                assert(list@ + commands_from(args@, i + 1) =~= before + commands_from(
                    args@,
                    i as int,
                ));
            },
            _ => {
                assert(list@ =~= before + commands_from(args@, i as int));
                return list;
            },
        }
        i = i + 1;
    }
    assert(list@ =~= list@ + commands_from(args@, i as int));
    list
}

/// The name of the compiled file for a source file, given the stem of its name.
pub open spec fn aot_name(stem: Option<&str>) -> Seq<char> {
    match stem {
        Some(text) => text@ + ".aot"@,
        None => "out.aot"@,
    }
}

/// The name of the compiled file for a source file, given the stem of its name;
/// a stem that is no text stands as `out`.
pub fn aot_output_name(stem: Option<&str>) -> (name: String)
    ensures
        name@ == aot_name(stem),
        name@ == (match stem {
            Some(text) => text@,
            None => "out"@,
        }) + ".aot"@,
{
    proof {
        reveal_strlit("out");
        reveal_strlit(".aot");
        reveal_strlit("out.aot");
        assert("out"@ + ".aot"@ =~= "out.aot"@);
    }
    match stem {
        Some(text) => text.to_string().concat(".aot"),
        None => "out".to_string().concat(".aot"),
    }
}

/// Whether an extension is that of a compiled file.
pub open spec fn is_compiled(extension: Option<&str>) -> bool {
    extension is Some && extension->0@ == "aot"@
}

/// Whether an input file has to be refused because of its extension: a compiled
/// file cannot be run directly.
pub fn is_aot_extension(extension: Option<&str>) -> (refused: bool)
    ensures
        refused == is_compiled(extension),
        refused == (extension matches Some(text) && text@ == "aot"@),
{
    match extension {
        Some(text) => text.to_string() == "aot".to_string(),
        None => false,
    }
}

/// Whatever the command line, at most its last command is not the evaluation of
/// a file: the loop and the help text stand alone, and nothing runs behind a
/// compilation or a refusal.
pub proof fn law_only_last_is_special(args: Seq<String>, k: int)
    requires
        0 <= k < command_list(args).len() - 1,
    ensures
        command_list(args)[k] is RunFile,
{
    if args.len() >= 2 && !is_help_flag(args[1]@) {
        lemma_commands_special(args, 1, k);
    }
}

proof fn lemma_commands_special(args: Seq<String>, i: int, k: int)
    requires
        0 <= k < commands_from(args, i).len() - 1,
    ensures
        commands_from(args, i)[k] is RunFile,
    decreases args.len() - i,
{
    if i < args.len() && command_at(args, i) is RunFile && k > 0 {
        lemma_commands_special(args, i + 1, k - 1);
    }
}

/// What an argument asks for. One that is not the flag, letter for letter, is a
/// file to evaluate. Behind the flag stands the input; an `-o` behind the input
/// names the output, whether or not anything follows; the refusals are only for
/// a flag and an `-o` that stand last.
pub proof fn law_command_read(args: Seq<String>, i: int)
    requires
        0 <= i < args.len() <= usize::MAX,
    ensures
        ({
            let flag = args[i]@ == "--aot"@ || args[i]@ == "--aot-compile"@;
            let named = i + 2 < args.len() && args[i + 2]@ == "-o"@;
            let command = command_at(args, i);
            &&& command is RunFile <==> !flag
            &&& command is MissingInput <==> flag && i == args.len() - 1
            &&& command is MissingOutput <==> flag && named && i + 2 == args.len() - 1
            &&& command is AotCompile <==> flag && i + 1 < args.len() && !(named && i + 2
                == args.len() - 1)
            &&& command matches Command::RunFile { path } ==> path == i
            &&& command matches Command::MissingInput { flag: at } ==> at == i
            &&& command matches Command::AotCompile { input, .. } ==> input == i + 1
            &&& command matches Command::AotCompile { output, .. } ==> (output is Some <==> named)
            &&& command matches Command::AotCompile { output, .. } ==> (output is Some ==> output->0
                == i + 3)
        }),
{
}

/// What the command line asks for as a whole: without an argument the loop; with
/// a help flag in front the help text alone; else each argument in turn, from the
/// first on, and the list stops only behind a flag or at the end.
pub proof fn law_commands_in_turn(args: Seq<String>)
    requires
        args.len() <= usize::MAX,
    ensures
        args.len() < 2 ==> command_list(args) == seq![Command::Repl],
        args.len() >= 2 && (args[1]@ == "--help"@ || args[1]@ == "-h"@) ==> command_list(args)
            == seq![Command::Help],
        args.len() >= 2 && args[1]@ != "--help"@ && args[1]@ != "-h"@ ==> {
            let list = command_list(args);
            &&& 1 <= list.len() < args.len()
            &&& forall|k: int| 0 <= k < list.len() ==> #[trigger] list[k] == command_at(args, k + 1)
            &&& list.len() < args.len() - 1 ==> (args[list.len() as int]@ == "--aot"@
                || args[list.len() as int]@ == "--aot-compile"@)
        },
{
    if args.len() >= 2 && !is_help_flag(args[1]@) {
        lemma_commands_in_turn(args, 1);
    }
}

proof fn lemma_commands_in_turn(args: Seq<String>, i: int)
    requires
        0 <= i < args.len() <= usize::MAX,
    ensures
        ({
            let list = commands_from(args, i);
            &&& 1 <= list.len() <= args.len() - i
            &&& forall|k: int| 0 <= k < list.len() ==> #[trigger] list[k] == command_at(args, i + k)
            &&& list.len() < args.len() - i ==> is_aot_flag(args[i + list.len() - 1]@)
        }),
    decreases args.len() - i,
{
    reveal_with_fuel(commands_from, 2);
    let list = commands_from(args, i);
    if command_at(args, i) is RunFile && i + 1 < args.len() {
        lemma_commands_in_turn(args, i + 1);
        let rest = commands_from(args, i + 1);
        assert forall|k: int| 0 <= k < list.len() implies #[trigger] list[k] == command_at(
            args,
            i + k,
        ) by {
            if k > 0 {
                assert(list[k] == rest[k - 1]);
                assert(rest[k - 1] == command_at(args, (i + 1) + (k - 1)));
            }
        }
    }
}

/// The compiled file is named after the source file, and is not taken for one: a
/// name ends with the extension that is refused, and begins with the whole stem.
pub proof fn law_compiled_named(stem: Option<&str>)
    ensures
        stem matches Some(text) ==> aot_name(stem) == text@ + ".aot"@,
        stem is None ==> aot_name(stem) == "out.aot"@,
        stem matches Some(text) ==> (is_compiled(stem) <==> text@ == "aot"@),
        !is_compiled(None),
{
}

} // verus!
