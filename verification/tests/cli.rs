use pilisp_jit::cli::{aot_output_name, commands, is_aot_extension, Command};

fn read(args: &[&str]) -> Vec<Command> {
    commands(&args.iter().map(|s| s.to_string()).collect::<Vec<String>>())
}

#[test]
fn no_argument_starts_the_loop() {
    assert_eq!(read(&[]), vec![Command::Repl]);
    assert_eq!(read(&["pilisp"]), vec![Command::Repl]);
}

#[test]
fn help_is_asked_for_first() {
    assert_eq!(read(&["pilisp", "--help"]), vec![Command::Help]);
    assert_eq!(read(&["pilisp", "-h", "a.pi"]), vec![Command::Help]);
    assert_eq!(
        read(&["pilisp", "a.pi", "-h"]),
        vec![Command::RunFile { path: 1 }, Command::RunFile { path: 2 }]
    );
}

#[test]
fn files_are_run_in_order() {
    assert_eq!(
        read(&["pilisp", "a.pi", "b.pi"]),
        vec![Command::RunFile { path: 1 }, Command::RunFile { path: 2 }]
    );
}

#[test]
fn a_compilation_ends_the_list() {
    assert_eq!(
        read(&["pilisp", "--aot", "a.pi", "b.pi"]),
        vec![Command::AotCompile { input: 2, output: None }]
    );
    assert_eq!(
        read(&["pilisp", "x.pi", "--aot-compile", "a.pi", "-o", "out.aot", "c.pi"]),
        vec![
            Command::RunFile { path: 1 },
            Command::AotCompile { input: 3, output: Some(5) }
        ]
    );
}

#[test]
fn missing_names_are_refused() {
    assert_eq!(read(&["pilisp", "--aot"]), vec![Command::MissingInput { flag: 1 }]);
    assert_eq!(
        read(&["pilisp", "a.pi", "--aot-compile"]),
        vec![Command::RunFile { path: 1 }, Command::MissingInput { flag: 2 }]
    );
    assert_eq!(read(&["pilisp", "--aot", "a.pi", "-o"]), vec![Command::MissingOutput]);
}

#[test]
fn output_is_named_after_the_input() {
    assert_eq!(aot_output_name(Some("prog")), "prog.aot");
    assert_eq!(aot_output_name(Some("")), ".aot");
    assert_eq!(aot_output_name(None), "out.aot");
}

#[test]
fn compiled_files_are_refused_as_input() {
    assert!(is_aot_extension(Some("aot")));
    assert!(!is_aot_extension(Some("pi")));
    assert!(!is_aot_extension(None));
}
