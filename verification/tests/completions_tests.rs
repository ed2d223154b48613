use cctx::completions::{completion_script, join_names, quote_names, Shell};

fn strings(items: &[&str]) -> Vec<String> {
    items.iter().map(|s| s.to_string()).collect()
}

#[test]
fn names_are_joined_with_the_separator_between_them() {
    assert_eq!(join_names(&strings(&[]), " "), "");
    assert_eq!(join_names(&strings(&["a"]), " "), "a");
    assert_eq!(join_names(&strings(&["a", "b", "c"]), ", "), "a, b, c");
    assert_eq!(join_names(&strings(&["", ""]), "-"), "-");
}

#[test]
fn names_are_quoted_one_by_one() {
    assert_eq!(quote_names(&strings(&["a", "b c"])), strings(&["'a'", "'b c'"]));
    assert_eq!(quote_names(&strings(&[])), strings(&[]));
}

#[test]
fn bash_script_offers_the_contexts_twice() {
    let script = completion_script(Shell::Bash, &strings(&["home", "work"])).unwrap();
    assert!(script.starts_with("_cctx() {\n    local i cur prev opts cmd\n    COMPREPLY=()\n"));
    assert!(script.contains(
        "                -d|--delete|-e|--edit|-s|--show|--export)\n                    COMPREPLY=($(compgen -W \"home work\" -- \"${cur}\"))\n"
    ));
    assert!(script.contains(
        "                *)\n                    COMPREPLY=($(compgen -W \"home work ${opts}\" -- \"${cur}\"))\n"
    ));
    assert!(script.contains("    if [[ \"${BASH_VERSINFO[0]}\" -ge 4 ]]; then\n"));
    assert!(script.ends_with("    complete -F _cctx -o bashdefault -o default cctx\nfi\n"));
    assert_eq!(script.matches("home work").count(), 2);
    assert_eq!(script.lines().count(), 53);
}

#[test]
fn fish_script_has_a_line_for_each_option_that_takes_a_context() {
    let script = completion_script(Shell::Fish, &strings(&["home", "work"])).unwrap();
    let lines: Vec<&str> = script.lines().collect();
    assert_eq!(lines.len(), 25);
    assert_eq!(
        lines[0],
        "complete -c cctx -l completions -d 'Generate shell completions' -r -f -a \"bash\t''"
    );
    assert_eq!(lines[4], "zsh\t''\"");
    assert_eq!(lines[5], "complete -c cctx -d -d 'Context name' -r -f -a \"home work\"");
    assert_eq!(lines[8], "complete -c cctx --delete -d 'Context name' -r -f -a \"home work\"");
    assert_eq!(lines[11], "complete -c cctx --export -d 'Context name' -r -f -a \"home work\"");
    assert_eq!(lines[12], "complete -c cctx -s d -l delete -d 'Delete context mode'");
    assert_eq!(lines[16], "complete -c cctx -s e -l edit -d 'Edit context with $EDITOR'");
    assert_eq!(lines[23], "complete -c cctx -s V -l version -d 'Print version'");
    assert_eq!(lines[24], "complete -c cctx -f -a \"home work\"");
    assert!(script.ends_with("\"\n"));
}

#[test]
fn fish_script_without_contexts_has_no_arguments() {
    let script = completion_script(Shell::Fish, &strings(&[])).unwrap();
    let lines: Vec<&str> = script.lines().collect();
    assert_eq!(lines.len(), 24);
    assert_eq!(lines[5], "complete -c cctx -d -d 'Context name' -r -f -a \"\"");
    assert_eq!(lines[23], "complete -c cctx -s V -l version -d 'Print version'");
}

#[test]
fn zsh_script_describes_the_contexts() {
    let script = completion_script(Shell::Zsh, &strings(&["home", "work"])).unwrap();
    assert!(script.starts_with("#compdef cctx\n\nautoload -U is-at-least\n\n_cctx() {\n"));
    assert!(script.contains(
        "_cctx_contexts() {\n    local contexts=('home' 'work')\n    _describe 'contexts' contexts\n}\n"
    ));
    assert!(script.contains("'-e[Edit context with \\$EDITOR]:context:_cctx_contexts' \\\n"));
    assert!(script.ends_with("else\n    compdef _cctx cctx\nfi\n"));

    let script = completion_script(Shell::Zsh, &strings(&[])).unwrap();
    assert!(script.contains("_cctx_contexts() {\n    \n}\n"));
}

#[test]
fn other_shells_have_no_script_of_their_own() {
    assert_eq!(completion_script(Shell::Elvish, &strings(&["home"])), None);
    assert_eq!(completion_script(Shell::PowerShell, &strings(&["home"])), None);
}
