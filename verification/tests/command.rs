use launch_deck::command::{parse_command_line, CommandSpec, Lifecycle, ResolvedCommand, TemplateVars};

fn vars() -> TemplateVars {
    let mut v = TemplateVars::new();
    v.set("projectRoot".to_owned(), r"D:\Workspace\My App".to_owned());
    v.set("script".to_owned(), "dev".to_owned());
    v
}

#[test]
fn expands_known_variables() {
    assert_eq!(vars().expand("run {script}").unwrap(), "run dev");
}

#[test]
fn expands_multiple_occurrences() {
    assert_eq!(vars().expand("{script}-{script}").unwrap(), "dev-dev");
}

#[test]
fn preserves_values_containing_spaces() {
    assert_eq!(vars().expand("{projectRoot}").unwrap(), r"D:\Workspace\My App");
}

#[test]
fn unknown_variable_is_an_error_not_an_empty_string() {
    let err = vars().expand("npm run {missing}").unwrap_err();
    assert_eq!(err.code(), "unknown_template_var");
}

#[test]
fn doubled_braces_are_literal() {
    assert_eq!(vars().expand("{{script}}").unwrap(), "{script}");
}

#[test]
fn unterminated_brace_is_literal() {
    assert_eq!(vars().expand("a {b c").unwrap(), "a {b c");
}

#[test]
fn whitespace_inside_braces_is_tolerated() {
    assert_eq!(vars().expand("{ script }").unwrap(), "dev");
}

#[test]
fn resolves_exec_spec() {
    let spec = CommandSpec::exec("npm", &["run", "{script}"]);
    let resolved = spec.resolve(&vars()).unwrap();
    assert_eq!(resolved.program, "npm");
    assert_eq!(resolved.args, vec!["run", "dev"]);
}

#[test]
fn powershell_scripts_go_through_the_script_host() {
    let spec = CommandSpec::Script {
        path: "start.ps1".to_owned(),
        args: vec!["{script}".to_owned()],
    };
    let resolved = spec.resolve(&vars()).unwrap();
    assert_eq!(resolved.program, "powershell.exe");
    assert!(resolved.args.contains(&"-File".to_owned()));
    assert_eq!(resolved.args.last().unwrap(), "dev");
}

#[test]
fn display_quotes_only_arguments_with_spaces() {
    let cmd = ResolvedCommand {
        program: "npm".to_owned(),
        args: vec!["run".to_owned(), "my task".to_owned()],
    };
    assert_eq!(cmd.to_string(), "npm run \"my task\"");
}

#[test]
fn parses_a_plain_command_line() {
    let cmd = parse_command_line("npm run dev").unwrap();
    assert_eq!(cmd.program, "npm");
    assert_eq!(cmd.args, vec!["run", "dev"]);
}

#[test]
fn parses_quoted_arguments_and_round_trips_display() {
    let cmd = parse_command_line(r#""C:\My Tools\serve.exe" --root "D:\a b" -v"#).unwrap();
    assert_eq!(cmd.program, r"C:\My Tools\serve.exe");
    assert_eq!(cmd.args, vec!["--root", r"D:\a b", "-v"]);
    let again = parse_command_line(&cmd.to_string()).unwrap();
    assert_eq!(again.program, cmd.program);
    assert_eq!(again.args, cmd.args);
}

#[test]
fn empty_and_whitespace_lines_parse_to_none() {
    assert!(parse_command_line("").is_none());
    assert!(parse_command_line("   ").is_none());
}

#[test]
fn shell_operators_are_ordinary_characters() {
    let cmd = parse_command_line("echo a && del /f").unwrap();
    assert_eq!(cmd.args, vec!["a", "&&", "del", "/f"]);
}

#[test]
fn adjacent_quotes_keep_one_token() {
    let cmd = parse_command_line(r#"py"thon" -V"#).unwrap();
    assert_eq!(cmd.program, "python");
    assert_eq!(cmd.args, vec!["-V"]);
}

#[test]
fn long_running_steps_are_exactly_run_and_debug() {
    let long: Vec<Lifecycle> = Lifecycle::all()
        .into_iter()
        .filter(|s| s.is_long_running())
        .collect();
    assert_eq!(long, vec![Lifecycle::Run, Lifecycle::Debug]);
}

// ---- beyond the original's own tests ----

#[test]
fn empty_arguments_are_displayed_as_a_quoted_pair_and_parse_back() {
    let cmd = ResolvedCommand { program: "tool".to_owned(), args: vec![String::new(), "x".to_owned()] };
    assert_eq!(cmd.to_string(), "tool \"\" x");
    let again = parse_command_line(&cmd.to_string()).unwrap();
    assert_eq!(again.args, vec!["", "x"]);
}

#[test]
fn a_line_with_only_quotes_has_no_program() {
    assert!(parse_command_line("\"\" run").is_none());
}

#[test]
fn with_project_seeds_the_standard_variables() {
    let v = TemplateVars::with_project(r"D:\Workspace\My App", "My App");
    assert_eq!(v.get("projectRoot"), Some(r"D:\Workspace\My App"));
    assert_eq!(v.get("projectName"), Some("My App"));
    assert_eq!(v.get("dirName"), Some("My App"));
    let trailing = TemplateVars::with_project("/srv/app/", "x");
    assert_eq!(trailing.get("dirName"), Some("app"));
}

#[test]
fn set_replaces_an_existing_variable() {
    let mut v = vars();
    v.set("script".to_owned(), "serve".to_owned());
    assert_eq!(v.get("script"), Some("serve"));
    assert_eq!(v.get("nothing"), None);
}

#[test]
fn batch_scripts_go_through_cmd() {
    let spec = CommandSpec::Script { path: "Go.BAT".to_owned(), args: vec![] };
    let r = spec.resolve(&TemplateVars::new()).unwrap();
    assert_eq!(r.program, "cmd.exe");
    assert_eq!(r.args, vec!["/c", "Go.BAT"]);
}

#[test]
fn unknown_extensions_run_the_script_directly() {
    let spec = CommandSpec::Script { path: "tool".to_owned(), args: vec!["a".to_owned()] };
    let r = spec.resolve(&TemplateVars::new()).unwrap();
    assert_eq!(r.program, "tool");
    assert_eq!(r.args, vec!["tool", "a"]);
}

#[test]
fn lifecycle_names_are_lower_case() {
    assert_eq!(Lifecycle::Install.as_str(), "install");
    assert_eq!(Lifecycle::Test.as_str(), "test");
}

#[test]
fn a_value_goes_in_verbatim_between_plain_text() {
    let mut vars = TemplateVars::new();
    vars.set("name".to_owned(), "a {b} c".to_owned());
    assert_eq!(vars.expand("x { name } y").unwrap(), "x a {b} c y");
    assert_eq!(vars.expand("plain text").unwrap(), "plain text");
    assert!(vars.expand("x {other} y").is_err());
}
