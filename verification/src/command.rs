//! The commands of the script language and the reading of script lines.
use vstd::prelude::*;
use crate::text::{
    lemma_run_end_bounds, run_end, scan_run, str_eq, trim, trim_class_str, trim_quotes,
    trim_white_space, CharClass,
};

verus! {

/// One line of a script, read as a command.
#[derive(Clone, Debug, PartialEq)]
pub enum Command {
    START,
    MATCH(String),
    RESPONSE(String),
    UNKNOWN,
    CASE(String),
    DEFAULT,
    END,
}

/// A command with its text taken as a sequence of characters.
pub enum CommandModel {
    Start,
    Match(Seq<char>),
    Response(Seq<char>),
    Unknown,
    Case(Seq<char>),
    Default,
    End,
}

impl View for Command {
    type V = CommandModel;

    open spec fn view(&self) -> CommandModel {
        match self {
            Command::START => CommandModel::Start,
            Command::MATCH(m) => CommandModel::Match(m@),
            Command::RESPONSE(r) => CommandModel::Response(r@),
            Command::UNKNOWN => CommandModel::Unknown,
            Command::CASE(c) => CommandModel::Case(c@),
            Command::DEFAULT => CommandModel::Default,
            Command::END => CommandModel::End,
        }
    }
}

pub open spec fn option_command_view(c: Option<Command>) -> Option<CommandModel> {
    match c {
        Some(c) => Some(c@),
        None => None,
    }
}

/// The index of the last `"` in `t[lo..hi]`, or -1 when there is none.
pub open spec fn last_quote(t: Seq<char>, lo: int, hi: int) -> int
    decreases hi - lo,
{
    if hi <= lo {
        -1
    } else if t[hi - 1] == '"' {
        hi - 1
    } else {
        last_quote(t, lo, hi - 1)
    }
}

/// The argument that follows the keyword ending at `e`: after optional white
/// space, a `"`, then the longest stretch without a line feed that ends in a
/// `"`. The quotes at both of its ends are dropped.
pub open spec fn quoted_argument(t: Seq<char>, e: int) -> Option<Seq<char>> {
    let w = run_end(t, e, CharClass::WhiteSpace);
    if w < t.len() && t[w] == '"' {
        let lim = run_end(t, w + 1, CharClass::NotNewline);
        let q = last_quote(t, w + 1, lim);
        if q >= 0 {
            Some(trim_quotes(t.subrange(w, q + 1)))
        } else {
            None
        }
    } else {
        None
    }
}

/// The start of the keyword of a trimmed line: its first word character.
pub open spec fn keyword_start(t: Seq<char>) -> int {
    run_end(t, 0, CharClass::NonWord)
}

/// The keyword of a trimmed line: its first run of word characters.
pub open spec fn keyword(t: Seq<char>) -> Seq<char> {
    let k = keyword_start(t);
    t.subrange(k, run_end(t, k, CharClass::Word))
}

pub open spec fn is_known_keyword(kw: Seq<char>) -> bool {
    ||| kw == "START"@
    ||| kw == "MATCH"@
    ||| kw == "RESPONSE"@
    ||| kw == "CASE"@
    ||| kw == "DEFAULT"@
    ||| kw == "UNKNOWN"@
    ||| kw == "END"@
}

/// Whether a line holds a keyword that is none of the seven commands: such a
/// line stops the reading of a script.
pub open spec fn has_unknown_keyword(line: Seq<char>) -> bool {
    let t = trim_white_space(line);
    keyword_start(t) < t.len() && !is_known_keyword(keyword(t))
}

/// The command that a keyword names, with the quoted argument that follows
/// it: `MATCH`, `RESPONSE` and `CASE` take the argument and hold no command
/// without one; the other commands ignore it.
pub open spec fn keyword_command(kw: Seq<char>, arg: Option<Seq<char>>) -> Option<CommandModel> {
    if kw == "START"@ {
        Some(CommandModel::Start)
    } else if kw == "MATCH"@ {
        match arg {
            Some(a) => Some(CommandModel::Match(a)),
            None => None,
        }
    } else if kw == "RESPONSE"@ {
        match arg {
            Some(a) => Some(CommandModel::Response(a)),
            None => None,
        }
    } else if kw == "CASE"@ {
        match arg {
            Some(a) => Some(CommandModel::Case(a)),
            None => None,
        }
    } else if kw == "DEFAULT"@ {
        Some(CommandModel::Default)
    } else if kw == "UNKNOWN"@ {
        Some(CommandModel::Unknown)
    } else if kw == "END"@ {
        Some(CommandModel::End)
    } else {
        None
    }
}

/// The command that a line holds, if any: the command named by its keyword,
/// with the quoted argument after it. A line without a word character holds
/// none.
pub open spec fn line_command(line: Seq<char>) -> Option<CommandModel> {
    let t = trim_white_space(line);
    if keyword_start(t) >= t.len() {
        None
    } else {
        keyword_command(
            keyword(t),
            quoted_argument(t, run_end(t, keyword_start(t), CharClass::Word)),
        )
    }
}

fn quoted_argument_of(t: &str, e: usize) -> (r: Option<String>)
    requires
        e <= t@.len(),
    ensures
        match r {
            Some(a) => quoted_argument(t@, e as int) == Some(a@),
            None => quoted_argument(t@, e as int) is None,
        },
{
    let n = t.unicode_len();
    let w = scan_run(t, e, CharClass::WhiteSpace);
    proof {
        lemma_run_end_bounds(t@, e as int, CharClass::WhiteSpace);
    }
    if w < n && t.get_char(w) == '"' {
        let lim = scan_run(t, w + 1, CharClass::NotNewline);
        proof {
            lemma_run_end_bounds(t@, w + 1, CharClass::NotNewline);
        }
        let mut j = lim;
        while j > w + 1 && t.get_char(j - 1) != '"'
            invariant
                w + 1 <= lim <= n,
                n == t@.len(),
                w + 1 <= j <= lim,
                last_quote(t@, w + 1, j as int) == last_quote(t@, w + 1, lim as int),
            decreases j,
        {
            j = j - 1;
        }
        if j > w + 1 {
            let g = t.substring_char(w, j);
            let a = trim_class_str(g, CharClass::Quote);
            Some(String::from_str(a))
        } else {
            None
        }
    } else {
        None
    }
}

/// Reads one line: `Err` for a line whose keyword is unknown, else the
/// command it holds, if any.
fn read_line(line: &str) -> (r: Result<Option<Command>, ()>)
    ensures
        r is Err <==> has_unknown_keyword(line@),
        r matches Ok(c) ==> option_command_view(c) == line_command(line@),
{
    let t = trim(line);
    let n = t.unicode_len();
    let k = scan_run(t, 0, CharClass::NonWord);
    if k >= n {
        return Ok(None);
    }
    let e = scan_run(t, k, CharClass::Word);
    proof {
        lemma_run_end_bounds(t@, 0, CharClass::NonWord);
        lemma_run_end_bounds(t@, k as int, CharClass::Word);
    }
    let kw = t.substring_char(k, e);
    if str_eq(kw, "START") {
        Ok(Some(Command::START))
    } else if str_eq(kw, "MATCH") {
        match quoted_argument_of(t, e) {
            Some(a) => Ok(Some(Command::MATCH(a))),
            None => Ok(None),
        }
    } else if str_eq(kw, "RESPONSE") {
        match quoted_argument_of(t, e) {
            Some(a) => Ok(Some(Command::RESPONSE(a))),
            None => Ok(None),
        }
    } else if str_eq(kw, "CASE") {
        match quoted_argument_of(t, e) {
            Some(a) => Ok(Some(Command::CASE(a))),
            None => Ok(None),
        }
    } else if str_eq(kw, "DEFAULT") {
        Ok(Some(Command::DEFAULT))
    } else if str_eq(kw, "UNKNOWN") {
        Ok(Some(Command::UNKNOWN))
    } else if str_eq(kw, "END") {
        Ok(Some(Command::END))
    } else {
        Err(())
    }
}

/// Whether `line` holds a keyword that is no command; reading such a line
/// into a command is refused.
pub fn is_unknown_command_line(line: &str) -> (b: bool)
    ensures
        b == has_unknown_keyword(line@),
{
    read_line(line).is_err()
}

/// Reads one script line into the command it holds; `None` for a blank line,
/// a line without a word, or a `MATCH`, `RESPONSE` or `CASE` line without a
/// quoted argument.
pub fn parse_line_to_cmd(line: &str) -> (r: Option<Command>)
    requires
        !has_unknown_keyword(line@),
    ensures
        option_command_view(r) == line_command(line@),
{
    match read_line(line) {
        Ok(c) => c,
        Err(()) => {
            proof {
                assert(false);
            }
            None
        },
    }
}

/// The commands that a sequence of lines holds, in order; lines that hold
/// none are skipped.
pub open spec fn lines_commands(lines: Seq<Seq<char>>) -> Seq<CommandModel>
    decreases lines.len(),
{
    if lines.len() == 0 {
        Seq::empty()
    } else {
        let rest = lines_commands(lines.drop_last());
        match line_command(lines.last()) {
            Some(c) => rest.push(c),
            None => rest,
        }
    }
}

pub open spec fn lines_view(lines: Seq<String>) -> Seq<Seq<char>> {
    lines.map_values(|l: String| l@)
}

pub open spec fn commands_view(cmds: Seq<Command>) -> Seq<CommandModel> {
    cmds.map_values(|c: Command| c@)
}

/// Reads the lines of a script into its commands.
pub fn parse_lines_to_cmds(lines: &Vec<String>) -> (cmds: Vec<Command>)
    requires
        forall|i: int| 0 <= i < lines@.len() ==> !has_unknown_keyword(#[trigger] lines@[i]@),
    ensures
        commands_view(cmds@) == lines_commands(lines_view(lines@)),
{
    let mut cmds: Vec<Command> = Vec::new();
    let mut i: usize = 0;
    while i < lines.len()
        invariant
            i <= lines@.len(),
            forall|i: int| 0 <= i < lines@.len() ==> !has_unknown_keyword(#[trigger] lines@[i]@),
            commands_view(cmds@) == lines_commands(lines_view(lines@).take(i as int)),
        decreases lines@.len() - i,
    {
        let ghost before = cmds@;
        let c = parse_line_to_cmd(lines[i].as_str());
        assert(lines_view(lines@).take(i + 1).drop_last() =~= lines_view(lines@).take(i as int));
        match c {
            Some(c) => {
                cmds.push(c);
                assert(commands_view(cmds@) =~= commands_view(before).push(cmds@.last()@));
            },
            None => {},
        }
        i = i + 1;
    }
    assert(lines_view(lines@).take(lines@.len() as int) =~= lines_view(lines@));
    cmds
}

/// The line that displays a command.
pub open spec fn command_text_spec(c: CommandModel) -> Seq<char> {
    match c {
        CommandModel::Start => "STAET"@,
        CommandModel::Match(m) => "MATCH: "@ + m,
        CommandModel::Response(r) => "RESPONSE: "@ + r,
        CommandModel::Unknown => "UNKNOWN"@,
        CommandModel::Case(c) => "CASE: "@ + c,
        CommandModel::Default => "DEFAULT"@,
        CommandModel::End => "END"@,
    }
}

/// The line that displays a command, as it is printed while a script is read.
pub fn command_text(cmd: &Command) -> (s: String)
    ensures
        s@ == command_text_spec(cmd@),
{
    match cmd {
        Command::START => String::from_str("STAET"),
        Command::MATCH(m) => {
            let mut s = String::from_str("MATCH: ");
            s.append(m.as_str());
            s
        },
        Command::RESPONSE(r) => {
            let mut s = String::from_str("RESPONSE: ");
            s.append(r.as_str());
            s
        },
        Command::UNKNOWN => String::from_str("UNKNOWN"),
        Command::CASE(c) => {
            let mut s = String::from_str("CASE: ");
            s.append(c.as_str());
            s
        },
        Command::DEFAULT => String::from_str("DEFAULT"),
        Command::END => String::from_str("END"),
    }
}

} // verus!
