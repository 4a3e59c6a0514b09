//! What reading a line promises: the forms of line that the script language
//! is written in read as the commands they name.
use vstd::prelude::*;
use crate::command::{
    CommandModel, has_unknown_keyword, is_known_keyword, keyword, keyword_command, keyword_start,
    last_quote, line_command, lines_commands, quoted_argument,
};
use crate::text::{
    CharClass, in_class, is_white_space, run_end, run_start, trim_class, trim_quotes,
    trim_white_space, unicode_word_char,
};

verus! {

proof fn lemma_run_end_exact(s: Seq<char>, i: int, j: int, class: CharClass)
    requires
        0 <= i <= j <= s.len(),
        forall|k: int| i <= k < j ==> in_class(#[trigger] s[k], class),
        j == s.len() || !in_class(s[j], class),
    ensures
        run_end(s, i, class) == j,
    decreases j - i,
{
    if i < j {
        lemma_run_end_exact(s, i + 1, j, class);
    }
}

proof fn lemma_run_start_exact(s: Seq<char>, i: int, j: int, class: CharClass)
    requires
        0 <= i <= j <= s.len(),
        forall|k: int| i <= k < j ==> in_class(#[trigger] s[k], class),
        i == 0 || !in_class(s[i - 1], class),
    ensures
        run_start(s, j, class) == i,
    decreases j - i,
{
    if i < j {
        lemma_run_start_exact(s, i, j - 1, class);
    }
}

/// Trimming a class off `pre + core + post`, where `pre` and `post` are of
/// the class and `core` neither starts nor ends with it, leaves `core`.
proof fn lemma_trim_exact(pre: Seq<char>, core: Seq<char>, post: Seq<char>, class: CharClass)
    requires
        forall|k: int| 0 <= k < pre.len() ==> in_class(#[trigger] pre[k], class),
        forall|k: int| 0 <= k < post.len() ==> in_class(#[trigger] post[k], class),
        core.len() > 0,
        !in_class(core[0], class),
        !in_class(core.last(), class),
    ensures
        trim_class(pre + core + post, class) == core,
{
    let s = pre + core + post;
    let a = pre.len() as int;
    let b = a + core.len();
    assert forall|k: int| 0 <= k < a implies in_class(#[trigger] s[k], class) by {
        assert(s[k] == pre[k]);
    }
    assert(s[a] == core[0]);
    lemma_run_end_exact(s, 0, a, class);
    assert forall|k: int| b <= k < s.len() implies in_class(#[trigger] s[k], class) by {
        assert(s[k] == post[k - b]);
    }
    assert(s[b - 1] == core.last());
    lemma_run_start_exact(s, b, s.len() as int, class);
    assert(s.subrange(a, b) =~= core);
}

/// The quoted argument `"text"` gives `text` back, where `text` has no line
/// feed and neither starts nor ends with a quote.
proof fn lemma_quoted_text(t: Seq<char>, w: int, text: Seq<char>)
    requires
        0 <= w,
        t.len() == w + text.len() + 2,
        t[w] == '"',
        t.last() == '"',
        forall|k: int| 0 <= k < text.len() ==> t[w + 1 + k] == #[trigger] text[k],
        forall|k: int| 0 <= k < text.len() ==> #[trigger] text[k] != '\n',
        text.len() == 0 || (text[0] != '"' && text.last() != '"'),
    ensures
        quoted_argument_tail(t, w) == Some(text),
{
    let n = t.len() as int;
    assert forall|k: int| w + 1 <= k < n implies in_class(#[trigger] t[k], CharClass::NotNewline) by {
        if k < n - 1 {
            assert(t[k] == text[k - w - 1]);
        }
    }
    lemma_run_end_exact(t, w + 1, n, CharClass::NotNewline);
    assert(last_quote(t, w + 1, n) == n - 1);
    let g = t.subrange(w, n);
    let q = seq!['"'];
    assert(g =~= q + text + q);
    if text.len() == 0 {
        assert(run_end(g, 0, CharClass::Quote) == 2) by {
            lemma_run_end_exact(g, 0, 2, CharClass::Quote);
        }
        assert(run_start(g, 2, CharClass::Quote) == 0) by {
            lemma_run_start_exact(g, 0, 2, CharClass::Quote);
        }
        assert(trim_quotes(g) =~= text);
    } else {
        lemma_trim_exact(q, text, q, CharClass::Quote);
    }
}

/// What `quoted_argument` finds once the white space after the keyword is
/// skipped and a quote stands at `w`.
spec fn quoted_argument_tail(t: Seq<char>, w: int) -> Option<Seq<char>> {
    let lim = run_end(t, w + 1, CharClass::NotNewline);
    let q = last_quote(t, w + 1, lim);
    if q >= 0 {
        Some(trim_quotes(t.subrange(w, q + 1)))
    } else {
        None
    }
}

/// A line of the form `KEYWORD "text"`, with any white space around its
/// parts, reads as the command the keyword names, with `text` as its
/// argument. The keyword is made of word characters, and neither the white
/// space after it nor the quote is one; `text` has no line feed and does not
/// start or end with a quote.
pub proof fn law_quoted_line_reads_as_command(
    ws1: Seq<char>,
    kw: Seq<char>,
    ws2: Seq<char>,
    text: Seq<char>,
    ws3: Seq<char>,
)
    requires
        forall|k: int| 0 <= k < ws1.len() ==> is_white_space(#[trigger] ws1[k]),
        forall|k: int|
            0 <= k < ws2.len() ==> is_white_space(#[trigger] ws2[k]) && !unicode_word_char(ws2[k]),
        forall|k: int| 0 <= k < ws3.len() ==> is_white_space(#[trigger] ws3[k]),
        kw.len() > 0,
        forall|k: int|
            0 <= k < kw.len() ==> unicode_word_char(#[trigger] kw[k]) && !is_white_space(kw[k]),
        !unicode_word_char('"'),
        forall|k: int| 0 <= k < text.len() ==> #[trigger] text[k] != '\n',
        text.len() == 0 || (text[0] != '"' && text.last() != '"'),
    ensures
        line_command(ws1 + kw + ws2 + seq!['"'] + text + seq!['"'] + ws3) == keyword_command(
            kw,
            Some(text),
        ),
        has_unknown_keyword(ws1 + kw + ws2 + seq!['"'] + text + seq!['"'] + ws3)
            == !is_known_keyword(kw),
{
    let q = seq!['"'];
    let core = kw + ws2 + q + text + q;
    let line = ws1 + kw + ws2 + q + text + q + ws3;
    assert(line =~= ws1 + core + ws3);
    assert(core[0] == kw[0]);
    assert(core.last() == '"');
    lemma_trim_exact(ws1, core, ws3, CharClass::WhiteSpace);
    let t = core;
    assert(trim_white_space(line) == t);
    let e = kw.len() as int;
    let w = e + ws2.len();
    assert(keyword_start(t) == 0);
    assert forall|k: int| 0 <= k < e implies in_class(#[trigger] t[k], CharClass::Word) by {
        assert(t[k] == kw[k]);
    }
    if ws2.len() > 0 {
        assert(t[e] == ws2[0]);
    } else {
        assert(t[e] == '"');
    }
    lemma_run_end_exact(t, 0, e, CharClass::Word);
    assert(keyword(t) =~= kw);
    assert forall|k: int| e <= k < w implies in_class(#[trigger] t[k], CharClass::WhiteSpace) by {
        assert(t[k] == ws2[k - e]);
    }
    assert(t[w] == '"');
    lemma_run_end_exact(t, e, w, CharClass::WhiteSpace);
    assert forall|k: int| 0 <= k < text.len() implies t[w + 1 + k] == #[trigger] text[k] by {}
    lemma_quoted_text(t, w, text);
    assert(quoted_argument(t, e) == Some(text));
}

/// A line that holds a keyword alone, with any white space around it, reads
/// as the command the keyword names without an argument.
pub proof fn law_bare_keyword_line_reads_as_command(ws1: Seq<char>, kw: Seq<char>, ws3: Seq<char>)
    requires
        forall|k: int| 0 <= k < ws1.len() ==> is_white_space(#[trigger] ws1[k]),
        forall|k: int| 0 <= k < ws3.len() ==> is_white_space(#[trigger] ws3[k]),
        kw.len() > 0,
        forall|k: int|
            0 <= k < kw.len() ==> unicode_word_char(#[trigger] kw[k]) && !is_white_space(kw[k]),
    ensures
        line_command(ws1 + kw + ws3) == keyword_command(kw, None),
        has_unknown_keyword(ws1 + kw + ws3) == !is_known_keyword(kw),
{
    lemma_trim_exact(ws1, kw, ws3, CharClass::WhiteSpace);
    let t = kw;
    assert(keyword_start(t) == 0);
    lemma_run_end_exact(t, 0, t.len() as int, CharClass::Word);
    assert(keyword(t) =~= kw);
    assert(quoted_argument(t, t.len() as int) is None);
}

/// A line without a word character holds no command, and is no line with an
/// unknown keyword.
pub proof fn law_line_without_words_holds_nothing(line: Seq<char>)
    requires
        forall|k: int| 0 <= k < line.len() ==> !unicode_word_char(#[trigger] line[k]),
    ensures
        line_command(line) is None,
        !has_unknown_keyword(line),
{
    let t = trim_white_space(line);
    let a = run_end(line, 0, CharClass::WhiteSpace);
    let b = run_start(line, line.len() as int, CharClass::WhiteSpace);
    crate::text::lemma_run_end_bounds(line, 0, CharClass::WhiteSpace);
    crate::text::lemma_run_start_bounds(line, line.len() as int, CharClass::WhiteSpace);
    assert forall|k: int| 0 <= k < t.len() implies in_class(#[trigger] t[k], CharClass::NonWord) by {
        assert(t[k] == line[a + k]);
    }
    lemma_run_end_exact(t, 0, t.len() as int, CharClass::NonWord);
}


/// The commands a keyword names: `MATCH`, `RESPONSE` and `CASE` carry their
/// quoted argument unchanged and hold no command without one; `START`,
/// `DEFAULT`, `UNKNOWN` and `END` ignore it; any other word names none.
pub proof fn law_keywords_name_their_commands(arg: Option<Seq<char>>, a: Seq<char>)
    ensures
        keyword_command("START"@, arg) == Some(CommandModel::Start),
        keyword_command("MATCH"@, Some(a)) == Some(CommandModel::Match(a)),
        keyword_command("RESPONSE"@, Some(a)) == Some(CommandModel::Response(a)),
        keyword_command("CASE"@, Some(a)) == Some(CommandModel::Case(a)),
        keyword_command("MATCH"@, None) is None,
        keyword_command("RESPONSE"@, None) is None,
        keyword_command("CASE"@, None) is None,
        keyword_command("DEFAULT"@, arg) == Some(CommandModel::Default),
        keyword_command("UNKNOWN"@, arg) == Some(CommandModel::Unknown),
        keyword_command("END"@, arg) == Some(CommandModel::End),
        forall|kw: Seq<char>| !is_known_keyword(kw) ==> keyword_command(kw, arg) is None,
{
    reveal_strlit("START");
    reveal_strlit("MATCH");
    reveal_strlit("RESPONSE");
    reveal_strlit("CASE");
    reveal_strlit("DEFAULT");
    reveal_strlit("UNKNOWN");
    reveal_strlit("END");
    assert("MATCH"@[0] != "START"@[0]);
    assert("RESPONSE"@[0] != "START"@[0]);
    assert("RESPONSE"@[0] != "MATCH"@[0]);
    assert("CASE"@[0] != "START"@[0]);
    assert("CASE"@[0] != "MATCH"@[0]);
    assert("CASE"@[0] != "RESPONSE"@[0]);
    assert("DEFAULT"@[0] != "START"@[0]);
    assert("DEFAULT"@[0] != "MATCH"@[0]);
    assert("DEFAULT"@[0] != "RESPONSE"@[0]);
    assert("DEFAULT"@[0] != "CASE"@[0]);
    assert("UNKNOWN"@[0] != "START"@[0]);
    assert("UNKNOWN"@[0] != "MATCH"@[0]);
    assert("UNKNOWN"@[0] != "RESPONSE"@[0]);
    assert("UNKNOWN"@[0] != "CASE"@[0]);
    assert("UNKNOWN"@[0] != "DEFAULT"@[0]);
    assert("END"@[0] != "START"@[0]);
    assert("END"@[0] != "MATCH"@[0]);
    assert("END"@[0] != "RESPONSE"@[0]);
    assert("END"@[0] != "CASE"@[0]);
    assert("END"@[0] != "DEFAULT"@[0]);
    assert("END"@[0] != "UNKNOWN"@[0]);
}

/// A line `MATCH "text"`, `RESPONSE "text"` or `CASE "text"` (white space
/// around its parts allowed) reads as that command with exactly `text` as its
/// argument, under the same conditions as `law_quoted_line_reads_as_command`.
pub proof fn law_quoted_line_keeps_its_text(
    ws1: Seq<char>,
    kw: Seq<char>,
    ws2: Seq<char>,
    text: Seq<char>,
    ws3: Seq<char>,
)
    requires
        forall|k: int| 0 <= k < ws1.len() ==> is_white_space(#[trigger] ws1[k]),
        forall|k: int|
            0 <= k < ws2.len() ==> is_white_space(#[trigger] ws2[k]) && !unicode_word_char(ws2[k]),
        forall|k: int| 0 <= k < ws3.len() ==> is_white_space(#[trigger] ws3[k]),
        kw.len() > 0,
        forall|k: int|
            0 <= k < kw.len() ==> unicode_word_char(#[trigger] kw[k]) && !is_white_space(kw[k]),
        !unicode_word_char('"'),
        forall|k: int| 0 <= k < text.len() ==> #[trigger] text[k] != '\n',
        text.len() == 0 || (text[0] != '"' && text.last() != '"'),
    ensures
        kw == "MATCH"@ ==> line_command(ws1 + kw + ws2 + seq!['"'] + text + seq!['"'] + ws3)
            == Some(CommandModel::Match(text)),
        kw == "RESPONSE"@ ==> line_command(ws1 + kw + ws2 + seq!['"'] + text + seq!['"'] + ws3)
            == Some(CommandModel::Response(text)),
        kw == "CASE"@ ==> line_command(ws1 + kw + ws2 + seq!['"'] + text + seq!['"'] + ws3)
            == Some(CommandModel::Case(text)),
{
    law_quoted_line_reads_as_command(ws1, kw, ws2, text, ws3);
    law_keywords_name_their_commands(Some(text), text);
}

/// The commands of a line, as a sequence of none or one.
pub open spec fn line_commands(line: Seq<char>) -> Seq<CommandModel> {
    match line_command(line) {
        Some(c) => seq![c],
        None => Seq::empty(),
    }
}

/// Reading lines reads each line on its own: the commands of `a` followed by
/// `b` are the commands of `a` followed by those of `b`, and the commands of
/// one line are the command it holds, if any. So no line is skipped but one
/// that holds no command, and nothing is reordered.
pub proof fn law_lines_read_one_by_one(a: Seq<Seq<char>>, b: Seq<Seq<char>>, line: Seq<char>)
    ensures
        lines_commands(a + b) == lines_commands(a) + lines_commands(b),
        lines_commands(seq![line]) == line_commands(line),
    decreases b.len(),
{
    assert(seq![line].drop_last() =~= Seq::<Seq<char>>::empty());
    assert(lines_commands(Seq::<Seq<char>>::empty()) =~= Seq::<CommandModel>::empty());
    match line_command(line) {
        Some(c) => assert(Seq::<CommandModel>::empty().push(c) =~= seq![c]),
        None => {},
    }
    if b.len() == 0 {
        assert(a + b =~= a);
        assert(lines_commands(a) + lines_commands(b) =~= lines_commands(a));
    } else {
        law_lines_read_one_by_one(a, b.drop_last(), line);
        assert((a + b).drop_last() =~= a + b.drop_last());
        assert((a + b).last() == b.last());
        let rest = lines_commands(a + b.drop_last());
        match line_command(b.last()) {
            Some(c) => {
                assert(lines_commands(a) + lines_commands(b.drop_last()).push(c) =~= (lines_commands(
                    a,
                ) + lines_commands(b.drop_last())).push(c));
            },
            None => {},
        }
    }
}

} // verus!
