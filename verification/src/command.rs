//! Quick Command: which shell runs a typed command, how a program and its arguments
//! are read from a setting without a shell, and the command history.
//!
//! Starting the terminal and the process happens outside this module.

use crate::paths::{copy_bytes, join, join_path, lossy, path_text, utf8_text};
use crate::text::{
    chars_of, decimal, escape_char, is_blank, is_blank_str, is_space, is_space_char, push_char,
    push_str, signed_decimal, signed_decimal_string, string_of, trim, trimmed,
};
use vstd::prelude::*;
use vstd::utf8::{decode_utf8, valid_utf8};

verus! {

// ------------------------------------------------------------ program specs ----

/// The state of reading a program setting: the arguments finished so far, the one
/// being read, the quote that is open, and whether a backslash is pending.
pub type SpecState = (Seq<Seq<char>>, Seq<char>, Option<char>, bool);

/// Read one more character. A backslash escapes the next character except inside
/// single quotes; a quote opens, closes, or is literal inside the other quote;
/// white space outside quotes ends the current argument; anything else is literal.
pub open spec fn spec_step(st: SpecState, c: char) -> SpecState {
    let (args, cur, quote, escaped) = st;
    if escaped {
        (args, cur.push(c), quote, false)
    } else if c == '\\' && quote != Some('\'') {
        (args, cur, quote, true)
    } else if c == '\'' || c == '"' {
        if quote == Some(c) {
            (args, cur, None, false)
        } else if quote is None {
            (args, cur, Some(c), false)
        } else {
            (args, cur.push(c), quote, false)
        }
    } else if is_space(c) && quote is None {
        if cur.len() > 0 {
            (args.push(cur), Seq::empty(), quote, false)
        } else {
            st
        }
    } else {
        (args, cur.push(c), quote, false)
    }
}

/// The state after reading all of `s`.
pub open spec fn spec_state(s: Seq<char>) -> SpecState
    decreases s.len(),
{
    if s.len() == 0 {
        (Seq::empty(), Seq::empty(), None, false)
    } else {
        spec_step(spec_state(s.drop_last()), s.last())
    }
}

/// The arguments a program setting names, or why it names none: an unfinished quote
/// or escape is refused, and so is a setting with no argument at all.
pub open spec fn program_spec(s: Seq<char>) -> Result<Seq<Seq<char>>, Seq<char>> {
    let (args, cur, quote, escaped) = spec_state(s);
    if escaped || quote is Some {
        Err("the command contains an unfinished quote or escape"@)
    } else {
        let all = if cur.len() > 0 {
            args.push(cur)
        } else {
            args
        };
        if all.len() == 0 {
            Err("an executable is required"@)
        } else {
            Ok(all)
        }
    }
}

/// The texts of a list of strings.
pub open spec fn texts(v: Seq<String>) -> Seq<Seq<char>> {
    v.map_values(|s: String| s@)
}

/// Parse an executable plus literal arguments without invoking a shell.
pub fn parse_program_spec(spec: &str) -> (r: Result<Vec<String>, String>)
    ensures
        match program_spec(spec@) {
            Ok(a) => r matches Ok(v) && texts(v@) == a,
            Err(e) => r matches Err(m) && m@ == e,
        },
{
    let chars = chars_of(spec);
    let mut args: Vec<String> = Vec::new();
    let mut current: Vec<char> = Vec::new();
    let mut quote: Option<char> = None;
    let mut escaped = false;
    let mut i: usize = 0;
    assert(chars@.take(0) =~= Seq::<char>::empty());
    assert(texts(args@) =~= Seq::<Seq<char>>::empty());
    while i < chars.len()
        invariant
            i <= chars.len(),
            chars@ == spec@,
            spec_state(chars@.take(i as int)) == (texts(args@), current@, quote, escaped),
        decreases chars.len() - i,
    {
        let c = chars[i];
        let ghost next = chars@.take(i + 1);
        assert(next.drop_last() =~= chars@.take(i as int));
        assert(next.last() == c);
        let ghost before = texts(args@);
        if escaped {
            current.push(c);
            escaped = false;
        } else if c == '\\' && quote != Some('\'') {
            escaped = true;
        } else if c == '\'' || c == '"' {
            if quote == Some(c) {
                quote = None;
            } else if quote.is_none() {
                quote = Some(c);
            } else {
                current.push(c);
            }
        } else if is_space_char(c) && quote.is_none() {
            if current.len() > 0 {
                let finished = string_of(&current);
                args.push(finished);
                assert(texts(args@) =~= before.push(current@));
                current = Vec::new();
            }
        } else {
            current.push(c);
        }
        i += 1;
    }
    assert(chars@.take(chars.len() as int) =~= chars@);
    if escaped || quote.is_some() {
        return Err(String::from_str("the command contains an unfinished quote or escape"));
    }
    if current.len() > 0 {
        let ghost before = texts(args@);
        let last = string_of(&current);
        args.push(last);
        assert(texts(args@) =~= before.push(current@));
    }
    if args.len() == 0 {
        return Err(String::from_str("an executable is required"));
    }
    Ok(args)
}

/// Refuse a program that is missing, or that is not an executable on `PATH`
/// (`found` says whether the search found the first argument).
pub fn validate_program(arguments: &Vec<String>, found: bool) -> (r: Result<(), String>)
    ensures
        arguments.len() == 0 ==> (r matches Err(m) && m@ == "an executable is required"@),
        arguments.len() > 0 && !found ==> (r matches Err(m) && m@ == arguments@[0]@ + " is not an executable on PATH"@),
        arguments.len() > 0 && found ==> r is Ok,
{
    if arguments.len() == 0 {
        return Err(String::from_str("an executable is required"));
    }
    if !found {
        let mut m = arguments[0].clone();
        push_str(&mut m, " is not an executable on PATH");
        return Err(m);
    }
    Ok(())
}

// -------------------------------------------------------------------- shell ----

/// The shell used for Quick Command: Teral's own setting (trimmed) when it is not
/// blank, then `TERAL_SHELL`, then `SHELL`, then `/bin/sh`.
pub open spec fn shell_choice(configured: Seq<char>, teral_shell: Option<Seq<char>>, shell: Option<Seq<char>>) -> Seq<char> {
    if trimmed(configured).len() > 0 {
        trimmed(configured)
    } else if teral_shell matches Some(t) && t.len() > 0 {
        teral_shell->0
    } else if shell matches Some(s) && s.len() > 0 {
        shell->0
    } else {
        "/bin/sh"@
    }
}

/// The shell used for Quick Command.
pub fn choose_shell(configured: &str, teral_shell: Option<&str>, shell: Option<&str>) -> (r: String)
    ensures
        r@ == shell_choice(
            configured@,
            match teral_shell {
                Some(t) => Some(t@),
                None => None,
            },
            match shell {
                Some(s) => Some(s@),
                None => None,
            },
        ),
{
    let t = trim(configured);
    if t.as_str().unicode_len() > 0 {
        return t;
    }
    if let Some(v) = teral_shell {
        if v.unicode_len() > 0 {
            return String::from_str(v);
        }
    }
    if let Some(v) = shell {
        if v.unicode_len() > 0 {
            return String::from_str(v);
        }
    }
    String::from_str("/bin/sh")
}

/// The arguments that run `command` through a shell: the shell's own arguments,
/// then `-c` and the command.
pub fn quick_command_argv(shell: Vec<String>, command: String) -> (r: Vec<String>)
    ensures
        texts(r@) == texts(shell@) + seq!["-c"@, command@],
{
    let mut r = shell;
    let ghost before = texts(r@);
    r.push(String::from_str("-c"));
    r.push(command);
    assert(texts(r@) =~= before + seq!["-c"@, command@]);
    r
}

/// The working directory of a Quick Command as text; the terminal needs UTF-8.
pub fn quick_command_directory(directory: &[u8]) -> (r: Result<String, String>)
    ensures
        valid_utf8(directory@) ==> (r matches Ok(s) && s@ == decode_utf8(directory@)),
        !valid_utf8(directory@) ==> (r matches Err(m) && m@ == "Quick Command cannot use this non-UTF-8 directory with VTE"@),
{
    match utf8_text(directory) {
        Some(s) => Ok(s),
        None => Err(String::from_str("Quick Command cannot use this non-UTF-8 directory with VTE")),
    }
}

/// `kill -KILL -- <target>`: the whole process group (`-pid`) or the one process.
pub fn kill_arguments(pid: i32, group: bool) -> (r: Vec<String>)
    ensures
        texts(r@) == seq![
            "-KILL"@,
            "--"@,
            if group {
                seq!['-'] + signed_decimal(pid as int)
            } else {
                signed_decimal(pid as int)
            },
        ],
{
    let mut target = String::new();
    if group {
        push_char(&mut target, '-');
    }
    let digits = signed_decimal_string(pid);
    push_str(&mut target, digits.as_str());
    let mut r: Vec<String> = Vec::new();
    r.push(String::from_str("-KILL"));
    r.push(String::from_str("--"));
    r.push(target);
    assert(texts(r@) =~= seq![
        "-KILL"@,
        "--"@,
        if group {
            seq!['-'] + signed_decimal(pid as int)
        } else {
            signed_decimal(pid as int)
        },
    ]);
    r
}

/// A short, readable label for a command, for the console header.
pub open spec fn summary_text(command: Seq<char>, directory: Seq<u8>) -> Seq<char> {
    "$ "@ + trimmed(command) + "   \u{b7}   "@ + path_text(directory)
}

/// A short, readable label for a command, for the console header.
pub fn summarise(command: &str, directory: &[u8]) -> (r: String)
    ensures
        r@ == summary_text(command@, directory@),
{
    let mut r = String::from_str("$ ");
    let t = trim(command);
    push_str(&mut r, t.as_str());
    push_str(&mut r, "   \u{b7}   ");
    let d = lossy(directory);
    push_str(&mut r, d.as_str());
    r
}

// ------------------------------------------------------------------ history ----

/// At most this many commands are remembered.
pub const HISTORY_LIMIT: usize = 100;

/// The last `HISTORY_LIMIT` entries of a list.
pub open spec fn last_commands<T>(s: Seq<T>) -> Seq<T> {
    if s.len() <= HISTORY_LIMIT {
        s
    } else {
        s.subrange(s.len() - HISTORY_LIMIT, s.len() as int)
    }
}

/// The commands that are not blank, in order.
pub open spec fn non_blank(s: Seq<Seq<char>>) -> Seq<Seq<char>>
    decreases s.len(),
{
    if s.len() == 0 {
        Seq::empty()
    } else if is_blank(s.last()) {
        non_blank(s.drop_last())
    } else {
        non_blank(s.drop_last()).push(s.last())
    }
}

/// The history kept from what was stored: blank commands dropped, then the most
/// recent `HISTORY_LIMIT`, oldest first.
pub fn history_from(stored: Vec<String>) -> (r: Vec<String>)
    ensures
        texts(r@) == last_commands(non_blank(texts(stored@))),
{
    let ghost all = texts(stored@);
    let mut kept: Vec<String> = Vec::new();
    let mut i: usize = 0;
    assert(all.take(0) =~= Seq::<Seq<char>>::empty());
    assert(texts(kept@) =~= Seq::<Seq<char>>::empty());
    while i < stored.len()
        invariant
            i <= stored.len(),
            all == texts(stored@),
            texts(kept@) == non_blank(all.take(i as int)),
        decreases stored.len() - i,
    {
        let ghost next = all.take(i + 1);
        assert(next.drop_last() =~= all.take(i as int));
        assert(next.last() == stored@[i as int]@);
        if !is_blank_str(stored[i].as_str()) {
            let ghost before = texts(kept@);
            kept.push(stored[i].clone());
            assert(texts(kept@) =~= before.push(stored@[i as int]@));
        }
        i += 1;
    }
    assert(all.take(stored.len() as int) =~= all);
    let ghost ks = texts(kept@);
    if kept.len() <= HISTORY_LIMIT {
        return kept;
    }
    let first = kept.len() - HISTORY_LIMIT;
    let mut r: Vec<String> = Vec::new();
    let mut j: usize = first;
    assert(ks.subrange(first as int, first as int) =~= texts(r@));
    while j < kept.len()
        invariant
            first <= j <= kept.len(),
            ks == texts(kept@),
            texts(r@) == ks.subrange(first as int, j as int),
        decreases kept.len() - j,
    {
        let ghost before = texts(r@);
        r.push(kept[j].clone());
        assert(texts(r@) =~= before.push(ks[j as int]));
        assert(ks.subrange(first as int, j + 1) =~= ks.subrange(first as int, j as int).push(ks[j as int]));
        j += 1;
    }
    r
}

/// How one character of a command is written inside a TOML string: backslashes and
/// double quotes are escaped, and a line feed becomes `\n`.
pub open spec fn history_char(c: char) -> Seq<char> {
    if c == '\n' {
        seq!['\\', 'n']
    } else {
        escape_char(c)
    }
}

/// A command written inside a TOML string.
pub open spec fn history_escaped(s: Seq<char>) -> Seq<char>
    decreases s.len(),
{
    if s.len() == 0 {
        Seq::empty()
    } else {
        history_escaped(s.drop_last()) + history_char(s.last())
    }
}

/// One quoted command per line.
pub open spec fn history_lines(s: Seq<Seq<char>>) -> Seq<char>
    decreases s.len(),
{
    if s.len() == 0 {
        Seq::empty()
    } else {
        history_lines(s.drop_last()) + "  \""@ + history_escaped(s.last()) + "\",\n"@
    }
}

/// The history file for `commands`: the most recent `HISTORY_LIMIT` of them.
pub open spec fn history_text(commands: Seq<Seq<char>>) -> Seq<char> {
    "version = 1\ncommand = [\n"@ + history_lines(last_commands(commands)) + "]\n"@
}

fn push_history_escaped(d: &mut String, command: &str)
    ensures
        final(d)@ == old(d)@ + history_escaped(command@),
{
    let v = chars_of(command);
    let ghost start = d@;
    let mut i: usize = 0;
    assert(v@.take(0) =~= Seq::<char>::empty());
    while i < v.len()
        invariant
            i <= v.len(),
            v@ == command@,
            d@ == start + history_escaped(v@.take(i as int)),
        decreases v.len() - i,
    {
        let c = v[i];
        let ghost next = v@.take(i + 1);
        assert(next.drop_last() =~= v@.take(i as int));
        assert(next.last() == c);
        if c == '\n' {
            push_char(d, '\\');
            push_char(d, 'n');
        } else if c == '\\' {
            push_char(d, '\\');
            push_char(d, '\\');
        } else if c == '"' {
            push_char(d, '\\');
            push_char(d, '"');
        } else {
            push_char(d, c);
        }
        assert(d@ =~= start + history_escaped(next));
        i += 1;
    }
    assert(v@.take(v.len() as int) =~= v@);
}

/// Loading what saving the history wrote gives back the most recent commands: the
/// file holds the last `HISTORY_LIMIT` of them, and reading keeps those that are not
/// blank, in order; so no more than `HISTORY_LIMIT` come back, and when none of the
/// commands is blank they all come back.
pub proof fn lemma_history_round_trip(commands: Seq<Seq<char>>)
    ensures
        last_commands(non_blank(last_commands(commands))) == non_blank(last_commands(commands)),
        non_blank(last_commands(commands)).len() <= HISTORY_LIMIT,
        (forall|i: int| 0 <= i < commands.len() ==> !is_blank(#[trigger] commands[i]))
            ==> non_blank(last_commands(commands)) == last_commands(commands),
{
    let kept = last_commands(commands);
    lemma_non_blank_shorter(kept);
    if forall|i: int| 0 <= i < commands.len() ==> !is_blank(#[trigger] commands[i]) {
        assert forall|i: int| 0 <= i < kept.len() implies !is_blank(#[trigger] kept[i]) by {
            if commands.len() > HISTORY_LIMIT {
                assert(kept[i] == commands[commands.len() - HISTORY_LIMIT + i]);
            }
        }
        lemma_non_blank_keeps(kept);
    }
}

proof fn lemma_non_blank_shorter(s: Seq<Seq<char>>)
    ensures
        non_blank(s).len() <= s.len(),
    decreases s.len(),
{
    if s.len() > 0 {
        lemma_non_blank_shorter(s.drop_last());
    }
}

proof fn lemma_non_blank_keeps(s: Seq<Seq<char>>)
    requires
        forall|i: int| 0 <= i < s.len() ==> !is_blank(#[trigger] s[i]),
    ensures
        non_blank(s) == s,
    decreases s.len(),
{
    if s.len() > 0 {
        let front = s.drop_last();
        assert forall|i: int| 0 <= i < front.len() implies !is_blank(#[trigger] front[i]) by {
            assert(front[i] == s[i]);
        }
        lemma_non_blank_keeps(front);
        assert(s.last() == s[s.len() - 1]);
        assert(front.push(s.last()) =~= s);
    }
}

/// The history file that saving `commands` writes.
pub fn history_document(commands: &Vec<String>) -> (r: String)
    ensures
        r@ == history_text(texts(commands@)),
{
    let ghost all = texts(commands@);
    let mut d = String::from_str("version = 1\ncommand = [\n");
    let ghost start = d@;
    let first: usize = if commands.len() > HISTORY_LIMIT {
        commands.len() - HISTORY_LIMIT
    } else {
        0
    };
    let mut i: usize = first;
    assert(all.subrange(first as int, first as int) =~= Seq::<Seq<char>>::empty());
    while i < commands.len()
        invariant
            first <= i <= commands.len(),
            all == texts(commands@),
            d@ == start + history_lines(all.subrange(first as int, i as int)),
        decreases commands.len() - i,
    {
        let ghost next = all.subrange(first as int, i + 1);
        assert(next.drop_last() =~= all.subrange(first as int, i as int));
        assert(next.last() == commands@[i as int]@);
        let ghost before = d@;
        push_str(&mut d, "  \"");
        push_history_escaped(&mut d, commands[i].as_str());
        push_str(&mut d, "\",\n");
        assert(d@ =~= before + ("  \""@ + history_escaped(commands@[i as int]@) + "\",\n"@));
        i += 1;
    }
    assert(all.subrange(first as int, commands.len() as int) =~= last_commands(all));
    push_str(&mut d, "]\n");
    assert(d@ =~= history_text(all));
    d
}

/// `teral/command-history.toml`, as bytes.
pub open spec fn history_file_name() -> Seq<u8> {
    seq![116u8, 101u8, 114u8, 97u8, 108u8, 47u8, 99u8, 111u8, 109u8, 109u8, 97u8, 110u8, 100u8, 45u8, 104u8, 105u8, 115u8, 116u8, 111u8, 114u8, 121u8, 46u8, 116u8, 111u8, 109u8, 108u8]
}

/// Where the command history is kept, under the user's data directory.
pub fn history_path(data_home: &[u8]) -> (r: Vec<u8>)
    ensures
        r@ == join(data_home@, history_file_name()),
{
    let name = copy_bytes(&[116u8, 101u8, 114u8, 97u8, 108u8, 47u8, 99u8, 111u8, 109u8, 109u8, 97u8, 110u8, 100u8, 45u8, 104u8, 105u8, 115u8, 116u8, 111u8, 114u8, 121u8, 46u8, 116u8, 111u8, 109u8, 108u8]);
    assert(name@ =~= history_file_name());
    join_path(data_home, name.as_slice())
}

// ----------------------------------------------------------------- terminal ----

/// The terminals Teral looks for on `PATH`, in order of preference.
pub fn terminal_candidates() -> (r: Vec<&'static str>)
    ensures
        r@.map_values(|s: &'static str| s@) == seq![
            "ghostty"@,
            "alacritty"@,
            "kitty"@,
            "wezterm"@,
            "foot"@,
            "gnome-terminal"@,
            "konsole"@,
            "xfce4-terminal"@,
            "tilix"@,
            "xterm"@,
        ],
{
    let mut r: Vec<&'static str> = Vec::new();
    r.push("ghostty");
    r.push("alacritty");
    r.push("kitty");
    r.push("wezterm");
    r.push("foot");
    r.push("gnome-terminal");
    r.push("konsole");
    r.push("xfce4-terminal");
    r.push("tilix");
    r.push("xterm");
    assert(r@.map_values(|s: &'static str| s@) =~= seq![
        "ghostty"@,
        "alacritty"@,
        "kitty"@,
        "wezterm"@,
        "foot"@,
        "gnome-terminal"@,
        "konsole"@,
        "xfce4-terminal"@,
        "tilix"@,
        "xterm"@,
    ]);
    r
}

/// The terminal setting to use: Teral's own (trimmed) when not blank, then
/// `TERAL_TERMINAL` when not blank; `None` means a terminal is looked for on `PATH`.
pub open spec fn terminal_setting(setting: Seq<char>, environment: Option<Seq<char>>) -> Option<Seq<char>> {
    if trimmed(setting).len() > 0 {
        Some(trimmed(setting))
    } else if environment matches Some(e) && trimmed(e).len() > 0 {
        environment
    } else {
        None
    }
}

/// The terminal setting to use, if any.
pub fn terminal_spec(setting: &str, environment: Option<&str>) -> (r: Option<String>)
    ensures
        match terminal_setting(
            setting@,
            match environment {
                Some(e) => Some(e@),
                None => None,
            },
        ) {
            Some(t) => r matches Some(s) && s@ == t,
            None => r is None,
        },
{
    let t = trim(setting);
    if t.as_str().unicode_len() > 0 {
        return Some(t);
    }
    match environment {
        Some(e) => {
            let te = trim(e);
            if te.as_str().unicode_len() > 0 {
                Some(String::from_str(e))
            } else {
                None
            }
        },
        None => None,
    }
}

} // verus!
