//! Completion scripts for the shells, with the names of the contexts in
//! them.

use vstd::prelude::*;
use vstd::string::StringExecFns;
use crate::text::{tagged, views};

verus! {

/// A shell that completions can be written for.
#[derive(Debug, Clone, Copy, PartialEq, Eq, Structural)]
pub enum Shell {
    Bash,
    Elvish,
    Fish,
    PowerShell,
    Zsh,
}

/// The script for bash, up to the first list of contexts.
pub const BASH_HEAD: &'static str = r#"_cctx() {
    local i cur prev opts cmd
    COMPREPLY=()
    if [[ "${BASH_VERSINFO[0]}" -ge 4 ]]; then
        cur="$2"
    else
        cur="${COMP_WORDS[COMP_CWORD]}"
    fi
    prev="$3"
    cmd=""
    opts=""

    for i in "${COMP_WORDS[@]:0:COMP_CWORD}"
    do
        case "${cmd},${i}" in
            ",$1")
                cmd="cctx"
                ;;
            *)
                ;;
        esac
    done

    case "${cmd}" in
        cctx)
            opts="-d -c -r -n -e -s -u -q -h -V --delete --current --rename --new --edit --show --export --import --unset --completions --quiet --help --version"
            if [[ ${cur} == -* || ${COMP_CWORD} -eq 1 ]] ; then
                COMPREPLY=( $(compgen -W "${opts}" -- "${cur}") )
                return 0
            fi
            case "${prev}" in
                --completions)
                    COMPREPLY=($(compgen -W "bash elvish fish powershell zsh" -- "${cur}"))
                    return 0
                    ;;
                -d|--delete|-e|--edit|-s|--show|--export)
                    COMPREPLY=($(compgen -W ""#;

/// The script for bash, between the two lists of contexts.
pub const BASH_MIDDLE: &'static str = r#"" -- "${cur}"))
                    return 0
                    ;;
                *)
                    COMPREPLY=($(compgen -W ""#;

/// The script for bash, after the second list of contexts.
pub const BASH_TAIL: &'static str = r#" ${opts}" -- "${cur}"))
                    return 0
                    ;;
            esac
            ;;
    esac
}

if [[ "${BASH_VERSINFO[0]}" -eq 4 && "${BASH_VERSINFO[1]}" -ge 4 || "${BASH_VERSINFO[0]}" -gt 4 ]]; then
    complete -F _cctx -o nosort -o bashdefault -o default cctx
else
    complete -F _cctx -o bashdefault -o default cctx
fi
"#;

/// The script for fish: the shells that completions can be asked for.
pub const FISH_SHELLS: &'static str = "complete -c cctx -l completions -d 'Generate shell completions' -r -f -a \"bash\t''\nelvish\t''\nfish\t''\npowershell\t''\nzsh\t''\"\n";

/// The script for fish: an option that takes a context, up to the option.
pub const FISH_OPTION_HEAD: &'static str = "complete -c cctx ";

/// The script for fish: an option that takes a context, between the option
/// and the list of contexts.
pub const FISH_OPTION_MIDDLE: &'static str = " -d 'Context name' -r -f -a \"";

/// The script for fish: the end of a line that lists the contexts.
pub const FISH_LIST_END: &'static str = "\"\n";

/// The script for fish: the options.
pub const FISH_FLAGS: &'static str = r#"complete -c cctx -s d -l delete -d 'Delete context mode'
complete -c cctx -s c -l current -d 'Current context mode'
complete -c cctx -s r -l rename -d 'Rename context mode'
complete -c cctx -s n -l new -d 'Create new context from current settings'
complete -c cctx -s e -l edit -d 'Edit context with $EDITOR'
complete -c cctx -s s -l show -d 'Show context content'
complete -c cctx -l export -d 'Export context to stdout'
complete -c cctx -l import -d 'Import context from stdin'
complete -c cctx -s u -l unset -d 'Unset current context (removes the settings file)'
complete -c cctx -s q -l quiet -d 'Show only current context (no highlighting when listing)'
complete -c cctx -s h -l help -d 'Print help'
complete -c cctx -s V -l version -d 'Print version'
"#;

/// The script for fish: the contexts as arguments, up to their list.
pub const FISH_CONTEXTS_HEAD: &'static str = "complete -c cctx -f -a \"";

/// The script for zsh, up to the function that lists the contexts.
pub const ZSH_HEAD: &'static str = r#"#compdef cctx

autoload -U is-at-least

_cctx() {
    typeset -A opt_args
    typeset -a _arguments_options
    local ret=1

    if is-at-least 5.2; then
        _arguments_options=(-s -S -C)
    else
        _arguments_options=(-s -C)
    fi

    local context curcontext="$curcontext" state line
    _arguments "${_arguments_options[@]}" : \
'--completions=[Generate shell completions]:COMPLETIONS:(bash elvish fish powershell zsh)' \
'-d[Delete context mode]:context:_cctx_contexts' \
'--delete[Delete context mode]:context:_cctx_contexts' \
'-c[Current context mode]' \
'--current[Current context mode]' \
'-r[Rename context mode]' \
'--rename[Rename context mode]' \
'-n[Create new context from current settings]' \
'--new[Create new context from current settings]' \
'-e[Edit context with \$EDITOR]:context:_cctx_contexts' \
'--edit[Edit context with \$EDITOR]:context:_cctx_contexts' \
'-s[Show context content]:context:_cctx_contexts' \
'--show[Show context content]:context:_cctx_contexts' \
'--export[Export context to stdout]:context:_cctx_contexts' \
'--import[Import context from stdin]' \
'-u[Unset current context (removes the settings file)]' \
'--unset[Unset current context (removes the settings file)]' \
'-q[Show only current context (no highlighting when listing)]' \
'--quiet[Show only current context (no highlighting when listing)]' \
'-h[Print help]' \
'--help[Print help]' \
'-V[Print version]' \
'--version[Print version]' \
'::context:_cctx_contexts' \
&& ret=0
}

_cctx_contexts() {
    "#;

/// The function of the script for zsh that lists the contexts, up to their
/// list.
pub const ZSH_CONTEXTS_HEAD: &'static str = "local contexts=(";

/// The function of the script for zsh that lists the contexts, after their
/// list.
pub const ZSH_CONTEXTS_TAIL: &'static str = ")\n    _describe 'contexts' contexts";

/// The script for zsh, after the function that lists the contexts.
pub const ZSH_TAIL: &'static str = r#"
}

(( $+functions[_cctx_commands] )) ||
_cctx_commands() {
    local commands; commands=()
    _describe -t commands 'cctx commands' commands "$@"
}

if [ "$funcstack[1]" = "_cctx" ]; then
    _cctx "$@"
else
    compdef _cctx cctx
fi
"#;

/// The names in one string, with `separator` between them.
pub open spec fn joined_names(names: Seq<Seq<char>>, separator: Seq<char>) -> Seq<char>
    decreases names.len(),
{
    if names.len() == 0 {
        Seq::empty()
    } else if names.len() == 1 {
        names[0]
    } else {
        joined_names(names.drop_last(), separator) + separator + names.last()
    }
}

/// Each name between two single quotes.
pub open spec fn quoted_names(names: Seq<Seq<char>>) -> Seq<Seq<char>> {
    Seq::new(names.len(), |i: int| "'"@ + names[i] + "'"@)
}

/// The line of the script for fish that completes `option` with a context.
pub open spec fn fish_option(option: Seq<char>, list: Seq<char>) -> Seq<char> {
    FISH_OPTION_HEAD@ + option + FISH_OPTION_MIDDLE@ + list + FISH_LIST_END@
}

/// The script for bash: after an option that takes a context it offers the
/// contexts, elsewhere the contexts and the options.
pub open spec fn bash_script(contexts: Seq<Seq<char>>) -> Seq<char> {
    BASH_HEAD@ + joined_names(contexts, " "@) + BASH_MIDDLE@ + joined_names(contexts, " "@)
        + BASH_TAIL@
}

/// The script for fish: a line for each option that takes a context, the
/// options, and the contexts as arguments where there are any.
pub open spec fn fish_script(contexts: Seq<Seq<char>>) -> Seq<char> {
    let list = joined_names(contexts, " "@);
    FISH_SHELLS@ + fish_option("-d"@, list) + fish_option("-e"@, list) + fish_option("-s"@, list)
        + fish_option("--delete"@, list) + fish_option("--edit"@, list) + fish_option(
        "--show"@,
        list,
    ) + fish_option("--export"@, list) + FISH_FLAGS@ + if contexts.len() > 0 {
        FISH_CONTEXTS_HEAD@ + list + FISH_LIST_END@
    } else {
        Seq::empty()
    }
}

/// The body of the function of the script for zsh that lists the contexts:
/// empty where there is none.
pub open spec fn zsh_contexts(contexts: Seq<Seq<char>>) -> Seq<char> {
    if contexts.len() > 0 {
        ZSH_CONTEXTS_HEAD@ + joined_names(quoted_names(contexts), " "@) + ZSH_CONTEXTS_TAIL@
    } else {
        Seq::empty()
    }
}

/// The script for zsh.
pub open spec fn zsh_script(contexts: Seq<Seq<char>>) -> Seq<char> {
    ZSH_HEAD@ + zsh_contexts(contexts) + ZSH_TAIL@
}

/// The script that completes the contexts for a shell, where there is one
/// of its own for it.
pub open spec fn script_of(shell: Shell, contexts: Seq<Seq<char>>) -> Option<Seq<char>> {
    match shell {
        Shell::Bash => Some(bash_script(contexts)),
        Shell::Fish => Some(fish_script(contexts)),
        Shell::Zsh => Some(zsh_script(contexts)),
        _ => None,
    }
}

/// The names in one string, with `separator` between them.
pub fn join_names(names: &Vec<String>, separator: &str) -> (joined: String)
    ensures
        joined@ == joined_names(views(names@), separator@),
{
    let ghost all = views(names@);
    let mut joined = String::new();
    let mut i: usize = 0;
    assert(all.take(0) =~= Seq::empty());
    while i < names.len()
        invariant
            i <= names.len(),
            all == views(names@),
            joined@ == joined_names(all.take(i as int), separator@),
        decreases names.len() - i,
    {
        proof {
            assert(all.take(i + 1).drop_last() =~= all.take(i as int));
            assert(all.take(i + 1).last() == names@[i as int]@);
            assert(all.take(i + 1)[0] == all[0]);
        }
        if i > 0 {
            joined.append(separator);
        }
        joined.append(names[i].as_str());
        proof {
            if i == 0 {
                assert(joined@ =~= names@[0]@);
            }
        }
        i += 1;
    }
    assert(all.take(names.len() as int) =~= all);
    joined
}

/// Each name between two single quotes.
pub fn quote_names(names: &Vec<String>) -> (quoted: Vec<String>)
    ensures
        views(quoted@) == quoted_names(views(names@)),
{
    let mut quoted: Vec<String> = Vec::new();
    let mut i: usize = 0;
    while i < names.len()
        invariant
            i <= names.len(),
            quoted@.len() == i,
            forall|j: int| 0 <= j < i ==> (#[trigger] quoted@[j])@ == "'"@ + names@[j]@ + "'"@,
        decreases names.len() - i,
    {
        quoted.push(tagged(tagged("'", names[i].as_str()).as_str(), "'"));
        i += 1;
    }
    assert(views(quoted@) =~= quoted_names(views(names@)));
    quoted
}

/// Appends to `script` the line for fish that completes `option` with a
/// context.
fn push_fish_option(script: &mut String, option: &str, list: &str)
    ensures
        final(script)@ == old(script)@ + fish_option(option@, list@),
{
    script.append(FISH_OPTION_HEAD);
    script.append(option);
    script.append(FISH_OPTION_MIDDLE);
    script.append(list);
    script.append(FISH_LIST_END);
    assert(script@ =~= old(script)@ + fish_option(option@, list@));
}

/// The script that completes the contexts for a shell; `None` for a shell
/// that has no script of its own here.
pub fn completion_script(shell: Shell, contexts: &Vec<String>) -> (script: Option<String>)
    ensures
        match script {
            Some(text) => script_of(shell, views(contexts@)) == Some(text@),
            None => script_of(shell, views(contexts@)) is None,
        },
{
    let list = join_names(contexts, " ");
    match shell {
        Shell::Bash => {
            let mut script = String::from_str(BASH_HEAD);
            script.append(list.as_str());
            script.append(BASH_MIDDLE);
            script.append(list.as_str());
            script.append(BASH_TAIL);
            Some(script)
        },
        Shell::Fish => {
            let mut script = String::from_str(FISH_SHELLS);
            push_fish_option(&mut script, "-d", list.as_str());
            push_fish_option(&mut script, "-e", list.as_str());
            push_fish_option(&mut script, "-s", list.as_str());
            push_fish_option(&mut script, "--delete", list.as_str());
            push_fish_option(&mut script, "--edit", list.as_str());
            push_fish_option(&mut script, "--show", list.as_str());
            push_fish_option(&mut script, "--export", list.as_str());
            script.append(FISH_FLAGS);
            if contexts.len() > 0 {
                script.append(FISH_CONTEXTS_HEAD);
                script.append(list.as_str());
                script.append(FISH_LIST_END);
            }
            assert(script@ =~= fish_script(views(contexts@)));
            Some(script)
        },
        Shell::Zsh => {
            let mut script = String::from_str(ZSH_HEAD);
            if contexts.len() > 0 {
                let quoted = join_names(&quote_names(contexts), " ");
                script.append(ZSH_CONTEXTS_HEAD);
                script.append(quoted.as_str());
                script.append(ZSH_CONTEXTS_TAIL);
            }
            script.append(ZSH_TAIL);
            assert(script@ =~= zsh_script(views(contexts@)));
            Some(script)
        },
        _ => None,
    }
}

} // verus!
