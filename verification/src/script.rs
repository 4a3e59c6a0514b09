//! Running a script: the reply to each line the user types.
use vstd::prelude::*;
use crate::block::{
    Block, BlockModel, CaseBlock, CaseModel, MatchBlock, MatchModel, block_model,
    case_seq_model, clone_case, clone_match, match_seq_model, opt_case_model,
    opt_match_model,
};
use crate::text::{trim, trim_white_space};
use crate::block::script_blocks;
use crate::block_laws::law_read_blocks_are_well_formed;
use crate::command::CommandModel;
use crate::script_text::{wf_block, wf_case, wf_match};

verus! {

/// Whether `pattern` compiles as a Unicode regular expression.
pub uninterp spec fn regex_compiles(pattern: Seq<char>) -> bool;

/// Whether the compiled `pattern` matches somewhere in `haystack`.
pub uninterp spec fn regex_finds(pattern: Seq<char>, haystack: Seq<char>) -> bool;

/// `regex::RegexBuilder::new(pattern).unicode(true).build()`, then
/// `Regex::is_match(haystack)` on the compiled expression. The contract names
/// both results: `None` exactly when the pattern does not compile, otherwise
/// whether it matches anywhere in `haystack`. Nothing more is claimed of
/// either.
#[verifier::external_body]
fn regex_is_match(pattern: &str, haystack: &str) -> (r: Option<bool>)
    ensures
        r is Some <==> regex_compiles(pattern@),
        r matches Some(b) ==> b == regex_finds(pattern@, haystack@),
{
    match regex::RegexBuilder::new(pattern).unicode(true).build() {
        Ok(re) => Some(re.is_match(haystack)),
        Err(_) => None,
    }
}

/// Whether the line `text` matches the script pattern `pattern`, both without
/// their surrounding white space; `None` where the pattern is no valid
/// regular expression.
pub open spec fn pattern_matches(text: Seq<char>, pattern: Seq<char>) -> Option<bool> {
    let p = trim_white_space(pattern);
    if regex_compiles(p) {
        Some(regex_finds(p, trim_white_space(text)))
    } else {
        None
    }
}

/// Whether the script pattern `pattern`, without its surrounding white space,
/// compiles as a regular expression.
pub open spec fn pattern_compiles(pattern: Seq<char>) -> bool {
    regex_compiles(trim_white_space(pattern))
}

/// Matches a line against a script pattern that compiles.
pub fn str_match(text: &str, pattern: &str) -> (b: bool)
    requires
        pattern_compiles(pattern@),
    ensures
        pattern_matches(text@, pattern@) == Some(b),
        b == regex_finds(trim_white_space(pattern@), trim_white_space(text@)),
{
    match regex_is_match(trim(pattern), trim(text)) {
        Some(b) => b,
        None => {
            proof {
                assert(false);
            }
            false
        },
    }
}

/// Matches a line against a script pattern; `None` where the pattern does not
/// compile, and `str_match` is not called.
pub fn try_str_match(text: &str, pattern: &str) -> (r: Option<bool>)
    ensures
        r == pattern_matches(text@, pattern@),
        r is Some <==> regex_compiles(trim_white_space(pattern@)),
        r matches Some(b) ==> b == regex_finds(trim_white_space(pattern@), trim_white_space(text@)),
{
    match regex_is_match(trim(pattern), trim(text)) {
        Some(_) => Some(str_match(text, pattern)),
        None => None,
    }
}

/// The outcome of trying a line against a list of patterns in order.
pub enum PatternScan {
    /// The first pattern that matches.
    Found(int),
    /// Every pattern compiled and none matched.
    NoneMatched,
    /// A pattern that does not compile came before any match.
    Invalid,
}

pub open spec fn scan_patterns(text: Seq<char>, patterns: Seq<Seq<char>>) -> PatternScan
    decreases patterns.len(),
{
    if patterns.len() == 0 {
        PatternScan::NoneMatched
    } else {
        match pattern_matches(text, patterns[0]) {
            None => PatternScan::Invalid,
            Some(true) => PatternScan::Found(0),
            Some(false) => match scan_patterns(text, patterns.drop_first()) {
                PatternScan::Found(k) => PatternScan::Found(k + 1),
                other => other,
            },
        }
    }
}

pub open spec fn match_patterns(ms: Seq<MatchModel>) -> Seq<Seq<char>> {
    ms.map_values(|m: MatchModel| m.mtch)
}

pub open spec fn case_patterns(cs: Seq<CaseModel>) -> Seq<Seq<char>> {
    cs.map_values(|c: CaseModel| c.case)
}

/// Where a conversation stands: the `MATCH` block or the `CASE` block that
/// gave the last reply, if any.
pub struct Dialog {
    pub current_match: Option<MatchBlock>,
    pub current_case: Option<CaseBlock>,
}

pub struct DialogModel {
    pub current_match: Option<MatchModel>,
    pub current_case: Option<CaseModel>,
}

pub open spec fn dialog_model(d: Dialog) -> DialogModel {
    DialogModel {
        current_match: opt_match_model(d.current_match),
        current_case: opt_case_model(d.current_case),
    }
}

pub open spec fn idle() -> DialogModel {
    DialogModel { current_match: None, current_case: None }
}

/// The reply from the top-level blocks: the first whose pattern matches, else
/// the `UNKNOWN` reply.
pub open spec fn reply_from_top(block: BlockModel, line: Seq<char>) -> Option<(DialogModel, Seq<char>)> {
    match scan_patterns(line, match_patterns(block.matches)) {
        PatternScan::Invalid => None,
        PatternScan::Found(k) => Some(
            (
                DialogModel { current_match: Some(block.matches[k]), current_case: None },
                block.matches[k].response,
            ),
        ),
        PatternScan::NoneMatched => Some((idle(), block.unknowing)),
    }
}

/// The reply when the last reply came from a `MATCH` block (or from none):
/// its cases are tried first, then its default; a block without cases hands
/// the line on to the top level.
pub open spec fn reply_after_match(block: BlockModel, current: Option<MatchModel>, line: Seq<char>) -> Option<(DialogModel, Seq<char>)> {
    match current {
        Some(m) => match m.cases {
            Some(cs) => match scan_patterns(line, case_patterns(cs)) {
                PatternScan::Invalid => None,
                PatternScan::Found(k) => Some(
                    (DialogModel { current_match: None, current_case: Some(cs[k]) }, cs[k].response),
                ),
                PatternScan::NoneMatched => match m.default {
                    Some(d) => Some((idle(), d)),
                    None => None,
                },
            },
            None => reply_from_top(block, line),
        },
        None => reply_from_top(block, line),
    }
}

/// The reply to `line` and where the conversation goes on from; `None` where
/// a pattern that is tried does not compile, or where no case matches and the
/// `MATCH` block has no default.
///
/// After a `CASE` reply, only the blocks nested under that case are tried, and
/// the `UNKNOWN` reply answers when none matches; a case without nested blocks
/// hands the line on.
pub open spec fn reply_to(block: BlockModel, state: DialogModel, line: Seq<char>) -> Option<(DialogModel, Seq<char>)> {
    match state.current_case {
        Some(c) => match c.matches {
            Some(ms) => match scan_patterns(line, match_patterns(ms)) {
                PatternScan::Invalid => None,
                PatternScan::Found(k) => Some(
                    (DialogModel { current_match: Some(ms[k]), current_case: None }, ms[k].response),
                ),
                PatternScan::NoneMatched => Some((idle(), block.unknowing)),
            },
            None => reply_after_match(block, state.current_match, line),
        },
        None => reply_after_match(block, state.current_match, line),
    }
}


/// When every pattern before `i` compiles and misses, the scan of the whole
/// list is the scan of the rest, shifted by `i`.
proof fn lemma_scan_skip(text: Seq<char>, patterns: Seq<Seq<char>>, i: int)
    requires
        0 <= i <= patterns.len(),
        forall|j: int| 0 <= j < i ==> pattern_matches(text, #[trigger] patterns[j]) == Some(false),
    ensures
        scan_patterns(text, patterns) == match scan_patterns(text, patterns.skip(i)) {
            PatternScan::Found(k) => PatternScan::Found(k + i),
            other => other,
        },
    decreases i,
{
    if i == 0 {
        assert(patterns.skip(0) =~= patterns);
    } else {
        let rest = patterns.drop_first();
        assert forall|j: int| 0 <= j < i - 1 implies pattern_matches(text, #[trigger] rest[j])
            == Some(false) by {
            assert(rest[j] == patterns[j + 1]);
        }
        lemma_scan_skip(text, rest, i - 1);
        assert(rest.skip(i - 1) =~= patterns.skip(i));
        assert(pattern_matches(text, patterns[0]) == Some(false));
    }
}

/// Tries `line` against the patterns of `blocks` in order.
fn scan_match_blocks(blocks: &Vec<MatchBlock>, line: &str) -> (r: Result<Option<usize>, ()>)
    ensures
        match r {
            Ok(Some(k)) => k < blocks@.len() && scan_patterns(
                line@,
                match_patterns(match_seq_model(*blocks)),
            ) == PatternScan::Found(k as int),
            Ok(None) => scan_patterns(line@, match_patterns(match_seq_model(*blocks)))
                == PatternScan::NoneMatched,
            Err(()) => scan_patterns(line@, match_patterns(match_seq_model(*blocks)))
                == PatternScan::Invalid,
        },
{
    let ghost pats = match_patterns(match_seq_model(*blocks));
    let mut i: usize = 0;
    while i < blocks.len()
        invariant
            i <= blocks@.len(),
            pats == match_patterns(match_seq_model(*blocks)),
            pats.len() == blocks@.len(),
            forall|j: int| 0 <= j < i ==> pattern_matches(line@, #[trigger] pats[j]) == Some(false),
        decreases blocks@.len() - i,
    {
        assert(pats[i as int] == blocks@[i as int].mtch@);
        match try_str_match(line, blocks[i].mtch.as_str()) {
            None => {
                proof {
                    lemma_scan_skip(line@, pats, i as int);
                }
                return Err(());
            },
            Some(true) => {
                proof {
                    lemma_scan_skip(line@, pats, i as int);
                }
                return Ok(Some(i));
            },
            Some(false) => {},
        }
        i = i + 1;
    }
    proof {
        lemma_scan_skip(line@, pats, i as int);
    }
    Ok(None)
}

/// Tries `line` against the patterns of `cases` in order.
fn scan_case_blocks(cases: &Vec<CaseBlock>, line: &str) -> (r: Result<Option<usize>, ()>)
    ensures
        match r {
            Ok(Some(k)) => k < cases@.len() && scan_patterns(
                line@,
                case_patterns(case_seq_model(*cases)),
            ) == PatternScan::Found(k as int),
            Ok(None) => scan_patterns(line@, case_patterns(case_seq_model(*cases)))
                == PatternScan::NoneMatched,
            Err(()) => scan_patterns(line@, case_patterns(case_seq_model(*cases)))
                == PatternScan::Invalid,
        },
{
    let ghost pats = case_patterns(case_seq_model(*cases));
    let mut i: usize = 0;
    while i < cases.len()
        invariant
            i <= cases@.len(),
            pats == case_patterns(case_seq_model(*cases)),
            pats.len() == cases@.len(),
            forall|j: int| 0 <= j < i ==> pattern_matches(line@, #[trigger] pats[j]) == Some(false),
        decreases cases@.len() - i,
    {
        assert(pats[i as int] == cases@[i as int].case@);
        match try_str_match(line, cases[i].case.as_str()) {
            None => {
                proof {
                    lemma_scan_skip(line@, pats, i as int);
                }
                return Err(());
            },
            Some(true) => {
                proof {
                    lemma_scan_skip(line@, pats, i as int);
                }
                return Ok(Some(i));
            },
            Some(false) => {},
        }
        i = i + 1;
    }
    proof {
        lemma_scan_skip(line@, pats, i as int);
    }
    Ok(None)
}

fn reply_from_top_exec(block: &Block, line: &str) -> (r: Option<(Dialog, String)>)
    ensures
        match r {
            Some((d, reply)) => reply_from_top(block_model(*block), line@) == Some(
                (dialog_model(d), reply@),
            ),
            None => reply_from_top(block_model(*block), line@) is None,
        },
{
    match scan_match_blocks(&block.matches, line) {
        Err(()) => None,
        Ok(Some(k)) => {
            let m = clone_match(&block.matches[k]);
            let reply = block.matches[k].response.clone();
            Some((Dialog { current_match: Some(m), current_case: None }, reply))
        },
        Ok(None) => Some(
            (Dialog { current_match: None, current_case: None }, block.unknowing.response.clone()),
        ),
    }
}

fn reply_after_match_exec(block: &Block, current: Option<MatchBlock>, line: &str) -> (r: Option<
    (Dialog, String),
>)
    ensures
        match r {
            Some((d, reply)) => reply_after_match(
                block_model(*block),
                opt_match_model(current),
                line@,
            ) == Some((dialog_model(d), reply@)),
            None => reply_after_match(block_model(*block), opt_match_model(current), line@) is None,
        },
{
    match current {
        Some(m) => match m.cases {
            Some(cs) => match scan_case_blocks(&cs, line) {
                Err(()) => None,
                Ok(Some(k)) => {
                    let c = clone_case(&cs[k]);
                    let reply = cs[k].response.clone();
                    Some((Dialog { current_match: None, current_case: Some(c) }, reply))
                },
                Ok(None) => match m.default {
                    Some(d) => Some((Dialog { current_match: None, current_case: None }, d)),
                    None => None,
                },
            },
            None => reply_from_top_exec(block, line),
        },
        None => reply_from_top_exec(block, line),
    }
}

/// The reply to one line the user typed, and where the conversation goes on
/// from; `None` where running the script stops on this line.
pub fn respond(block: &Block, state: Dialog, line: &str) -> (r: Option<(Dialog, String)>)
    ensures
        match r {
            Some((d, reply)) => reply_to(block_model(*block), dialog_model(state), line@) == Some(
                (dialog_model(d), reply@),
            ),
            None => reply_to(block_model(*block), dialog_model(state), line@) is None,
        },
{
    let Dialog { current_match, current_case } = state;
    match current_case {
        Some(c) => match c.matches {
            Some(ms) => match scan_match_blocks(&ms, line) {
                Err(()) => None,
                Ok(Some(k)) => {
                    let m = clone_match(&ms[k]);
                    let reply = ms[k].response.clone();
                    Some((Dialog { current_match: Some(m), current_case: None }, reply))
                },
                Ok(None) => Some(
                    (
                        Dialog { current_match: None, current_case: None },
                        block.unknowing.response.clone(),
                    ),
                ),
            },
            None => reply_after_match_exec(block, current_match, line),
        },
        None => reply_after_match_exec(block, current_match, line),
    }
}


proof fn lemma_scan_found(text: Seq<char>, patterns: Seq<Seq<char>>, k: int)
    requires
        0 <= k < patterns.len(),
        forall|j: int| 0 <= j < k ==> pattern_matches(text, #[trigger] patterns[j]) == Some(false),
        pattern_matches(text, patterns[k]) == Some(true),
    ensures
        scan_patterns(text, patterns) == PatternScan::Found(k),
{
    lemma_scan_skip(text, patterns, k);
    assert(patterns.skip(k)[0] == patterns[k]);
}

proof fn lemma_scan_none(text: Seq<char>, patterns: Seq<Seq<char>>)
    requires
        forall|j: int|
            0 <= j < patterns.len() ==> pattern_matches(text, #[trigger] patterns[j]) == Some(false),
    ensures
        scan_patterns(text, patterns) == PatternScan::NoneMatched,
{
    lemma_scan_skip(text, patterns, patterns.len() as int);
    assert(patterns.skip(patterns.len() as int) =~= Seq::<Seq<char>>::empty());
}

/// With no block answered yet, a line gets the reply of the first top-level
/// `MATCH` block whose pattern matches it, and the conversation goes on from
/// that block.
pub proof fn law_first_matching_block_replies(b: BlockModel, line: Seq<char>, k: int)
    requires
        0 <= k < b.matches.len(),
        forall|j: int|
            0 <= j < k ==> pattern_matches(line, (#[trigger] b.matches[j]).mtch) == Some(false),
        pattern_matches(line, b.matches[k].mtch) == Some(true),
    ensures
        reply_to(b, idle(), line) == Some(
            (
                DialogModel { current_match: Some(b.matches[k]), current_case: None },
                b.matches[k].response,
            ),
        ),
{
    let pats = match_patterns(b.matches);
    assert forall|j: int| 0 <= j < k implies pattern_matches(line, #[trigger] pats[j]) == Some(
        false,
    ) by {
        assert(pats[j] == b.matches[j].mtch);
    }
    lemma_scan_found(line, pats, k);
}

/// With no block answered yet, a line that no top-level pattern matches gets
/// the `UNKNOWN` reply, and the conversation starts over.
pub proof fn law_unknown_reply_when_nothing_matches(b: BlockModel, line: Seq<char>)
    requires
        forall|j: int|
            0 <= j < b.matches.len() ==> pattern_matches(line, (#[trigger] b.matches[j]).mtch)
                == Some(false),
    ensures
        reply_to(b, idle(), line) == Some((idle(), b.unknowing)),
{
    let pats = match_patterns(b.matches);
    assert forall|j: int| 0 <= j < pats.len() implies pattern_matches(line, #[trigger] pats[j])
        == Some(false) by {
        assert(pats[j] == b.matches[j].mtch);
    }
    lemma_scan_none(line, pats);
}

/// After the reply of a `MATCH` block with cases, a line gets the reply of
/// the first case whose pattern matches it, and the conversation goes on from
/// that case.
pub proof fn law_first_matching_case_replies(
    b: BlockModel,
    m: MatchModel,
    line: Seq<char>,
    k: int,
)
    requires
        m.cases is Some,
        0 <= k < m.cases->0.len(),
        forall|j: int|
            0 <= j < k ==> pattern_matches(line, (#[trigger] m.cases->0[j]).case) == Some(false),
        pattern_matches(line, m.cases->0[k].case) == Some(true),
    ensures
        reply_to(b, DialogModel { current_match: Some(m), current_case: None }, line) == Some(
            (
                DialogModel { current_match: None, current_case: Some(m.cases->0[k]) },
                m.cases->0[k].response,
            ),
        ),
{
    let cs = m.cases->0;
    let pats = case_patterns(cs);
    assert forall|j: int| 0 <= j < k implies pattern_matches(line, #[trigger] pats[j]) == Some(
        false,
    ) by {
        assert(pats[j] == cs[j].case);
    }
    lemma_scan_found(line, pats, k);
}

/// After the reply of a `MATCH` block with cases, a line that no case matches
/// gets the block's `DEFAULT` reply, and the conversation starts over.
pub proof fn law_default_reply_when_no_case_matches(b: BlockModel, m: MatchModel, line: Seq<char>)
    requires
        m.cases is Some,
        m.default is Some,
        forall|j: int|
            0 <= j < m.cases->0.len() ==> pattern_matches(line, (#[trigger] m.cases->0[j]).case)
                == Some(false),
    ensures
        reply_to(b, DialogModel { current_match: Some(m), current_case: None }, line) == Some(
            (idle(), m.default->0),
        ),
{
    let cs = m.cases->0;
    let pats = case_patterns(cs);
    assert forall|j: int| 0 <= j < pats.len() implies pattern_matches(line, #[trigger] pats[j])
        == Some(false) by {
        assert(pats[j] == cs[j].case);
    }
    lemma_scan_none(line, pats);
}

/// After the reply of a `CASE` block with nested blocks, a line gets the reply
/// of the first nested block whose pattern matches it.
pub proof fn law_first_matching_nested_block_replies(
    b: BlockModel,
    state: DialogModel,
    line: Seq<char>,
    k: int,
)
    requires
        state.current_case is Some,
        state.current_case->0.matches is Some,
        0 <= k < state.current_case->0.matches->0.len(),
        forall|j: int|
            0 <= j < k ==> pattern_matches(
                line,
                (#[trigger] state.current_case->0.matches->0[j]).mtch,
            ) == Some(false),
        pattern_matches(line, state.current_case->0.matches->0[k].mtch) == Some(true),
    ensures
        reply_to(b, state, line) == Some(
            (
                DialogModel {
                    current_match: Some(state.current_case->0.matches->0[k]),
                    current_case: None,
                },
                state.current_case->0.matches->0[k].response,
            ),
        ),
{
    let ms = state.current_case->0.matches->0;
    let pats = match_patterns(ms);
    assert forall|j: int| 0 <= j < k implies pattern_matches(line, #[trigger] pats[j]) == Some(
        false,
    ) by {
        assert(pats[j] == ms[j].mtch);
    }
    lemma_scan_found(line, pats, k);
}

/// After the reply of a `CASE` block with nested blocks, a line that none of
/// them matches gets the `UNKNOWN` reply; the top-level blocks are not tried.
pub proof fn law_unknown_reply_when_no_nested_block_matches(
    b: BlockModel,
    state: DialogModel,
    line: Seq<char>,
)
    requires
        state.current_case is Some,
        state.current_case->0.matches is Some,
        forall|j: int|
            0 <= j < state.current_case->0.matches->0.len() ==> pattern_matches(
                line,
                (#[trigger] state.current_case->0.matches->0[j]).mtch,
            ) == Some(false),
    ensures
        reply_to(b, state, line) == Some((idle(), b.unknowing)),
{
    let ms = state.current_case->0.matches->0;
    let pats = match_patterns(ms);
    assert forall|j: int| 0 <= j < pats.len() implies pattern_matches(line, #[trigger] pats[j])
        == Some(false) by {
        assert(pats[j] == ms[j].mtch);
    }
    lemma_scan_none(line, pats);
}


proof fn lemma_scan_same_trim(t1: Seq<char>, t2: Seq<char>, patterns: Seq<Seq<char>>)
    requires
        trim_white_space(t1) == trim_white_space(t2),
    ensures
        scan_patterns(t1, patterns) == scan_patterns(t2, patterns),
    decreases patterns.len(),
{
    if patterns.len() > 0 {
        lemma_scan_same_trim(t1, t2, patterns.drop_first());
    }
}

/// Lines that differ only in the white space around them get the same reply:
/// a line is matched without it.
pub proof fn law_surrounding_white_space_does_not_matter(
    b: BlockModel,
    state: DialogModel,
    line: Seq<char>,
)
    ensures
        reply_to(b, state, line) == reply_to(b, state, trim_white_space(line)),
{
    let t = trim_white_space(line);
    crate::text::lemma_trim_class_idempotent(line, crate::text::CharClass::WhiteSpace);
    lemma_scan_same_trim(line, t, match_patterns(b.matches));
    match state.current_match {
        Some(m) => match m.cases {
            Some(cs) => lemma_scan_same_trim(line, t, case_patterns(cs)),
            None => {},
        },
        None => {},
    }
    match state.current_case {
        Some(c) => match c.matches {
            Some(ms) => lemma_scan_same_trim(line, t, match_patterns(ms)),
            None => {},
        },
        None => {},
    }
}

/// After the reply of a `MATCH` block without cases, the next line is
/// answered as at the start of a conversation.
pub proof fn law_block_without_cases_hands_on(b: BlockModel, m: MatchModel, line: Seq<char>)
    requires
        m.cases is None,
    ensures
        reply_to(b, DialogModel { current_match: Some(m), current_case: None }, line) == reply_to(
            b,
            idle(),
            line,
        ),
{
}

/// After the reply of a `CASE` block without nested blocks, the next line is
/// answered as at the start of a conversation.
pub proof fn law_case_without_nested_blocks_hands_on(b: BlockModel, c: CaseModel, line: Seq<char>)
    requires
        c.matches is None,
    ensures
        reply_to(b, DialogModel { current_match: None, current_case: Some(c) }, line) == reply_to(
            b,
            idle(),
            line,
        ),
{
}


/// Whether every pattern of a `MATCH` block, and of all that is nested in it,
/// compiles.
pub open spec fn match_compiles(m: MatchModel) -> bool
    decreases m,
{
    &&& pattern_compiles(m.mtch)
    &&& match m.cases {
        Some(cs) => forall|i: int| 0 <= i < cs.len() ==> case_compiles(#[trigger] cs[i]),
        None => true,
    }
}

/// Whether every pattern of a `CASE` block, and of all that is nested in it,
/// compiles.
pub open spec fn case_compiles(c: CaseModel) -> bool
    decreases c,
{
    &&& pattern_compiles(c.case)
    &&& match c.matches {
        Some(ms) => forall|i: int| 0 <= i < ms.len() ==> match_compiles(#[trigger] ms[i]),
        None => true,
    }
}

/// Whether every pattern of a script compiles.
pub open spec fn block_compiles(b: BlockModel) -> bool {
    forall|i: int| 0 <= i < b.matches.len() ==> match_compiles(#[trigger] b.matches[i])
}

/// A conversation state that a well-formed script whose patterns compile
/// leads to: its blocks are well formed and their patterns compile.
pub open spec fn dialog_ok(d: DialogModel) -> bool {
    &&& d.current_match is Some ==> wf_match(d.current_match->0) && match_compiles(
        d.current_match->0,
    )
    &&& d.current_case is Some ==> wf_case(d.current_case->0) && case_compiles(d.current_case->0)
}

/// The state a reply leaves the conversation in.
pub open spec fn next_state(r: Option<(DialogModel, Seq<char>)>) -> DialogModel {
    match r {
        Some((d, _)) => d,
        None => idle(),
    }
}

proof fn lemma_scan_compiles(text: Seq<char>, patterns: Seq<Seq<char>>)
    requires
        forall|i: int| 0 <= i < patterns.len() ==> pattern_compiles(#[trigger] patterns[i]),
    ensures
        !(scan_patterns(text, patterns) is Invalid),
        scan_patterns(text, patterns) matches PatternScan::Found(k) ==> 0 <= k < patterns.len(),
    decreases patterns.len(),
{
    if patterns.len() > 0 {
        let rest = patterns.drop_first();
        assert(pattern_compiles(patterns[0]));
        assert forall|i: int| 0 <= i < rest.len() implies pattern_compiles(#[trigger] rest[i]) by {
            assert(rest[i] == patterns[i + 1]);
        }
        lemma_scan_compiles(text, rest);
    }
}

proof fn lemma_top_reply(b: BlockModel, line: Seq<char>)
    requires
        wf_block(b),
        block_compiles(b),
    ensures
        reply_from_top(b, line) is Some,
        dialog_ok(next_state(reply_from_top(b, line))),
{
    let pats = match_patterns(b.matches);
    assert forall|i: int| 0 <= i < pats.len() implies pattern_compiles(#[trigger] pats[i]) by {
        assert(pats[i] == b.matches[i].mtch);
        assert(match_compiles(b.matches[i]));
    }
    lemma_scan_compiles(line, pats);
    match scan_patterns(line, pats) {
        PatternScan::Found(k) => {
            assert(wf_match(b.matches[k]));
            assert(match_compiles(b.matches[k]));
        },
        _ => {},
    }
}

/// A well-formed script whose patterns all compile answers every line: from a
/// state it leads to, each line gets a reply, and the conversation goes on in
/// such a state again. The conversation starts in `idle()`, which is one.
pub proof fn law_every_line_gets_a_reply(b: BlockModel, state: DialogModel, line: Seq<char>)
    requires
        wf_block(b),
        block_compiles(b),
        dialog_ok(state),
    ensures
        reply_to(b, state, line) is Some,
        dialog_ok(next_state(reply_to(b, state, line))),
{
    lemma_top_reply(b, line);
    if state.current_case is Some && state.current_case->0.matches is Some {
        let ms = state.current_case->0.matches->0;
        let pats = match_patterns(ms);
        assert forall|i: int| 0 <= i < pats.len() implies pattern_compiles(#[trigger] pats[i]) by {
            assert(pats[i] == ms[i].mtch);
            assert(match_compiles(ms[i]));
        }
        lemma_scan_compiles(line, pats);
        if let PatternScan::Found(k) = scan_patterns(line, pats) {
            assert(wf_match(ms[k]));
            assert(match_compiles(ms[k]));
        }
    } else if state.current_match is Some && state.current_match->0.cases is Some {
        let cs = state.current_match->0.cases->0;
        let pats = case_patterns(cs);
        assert forall|i: int| 0 <= i < pats.len() implies pattern_compiles(#[trigger] pats[i]) by {
            assert(pats[i] == cs[i].case);
            assert(case_compiles(cs[i]));
        }
        lemma_scan_compiles(line, pats);
        if let PatternScan::Found(k) = scan_patterns(line, pats) {
            assert(wf_case(cs[k]));
            assert(case_compiles(cs[k]));
        }
    }
}

/// A script read from commands, whose patterns all compile, answers every
/// line it is given, from the start of a conversation on.
pub proof fn law_read_script_answers_every_line(
    cmds: Seq<CommandModel>,
    b: BlockModel,
    state: DialogModel,
    line: Seq<char>,
)
    requires
        script_blocks(cmds) == Some(Ok::<BlockModel, Seq<char>>(b)),
        block_compiles(b),
        dialog_ok(state),
    ensures
        reply_to(b, state, line) is Some,
        dialog_ok(next_state(reply_to(b, state, line))),
        dialog_ok(idle()),
{
    law_read_blocks_are_well_formed(cmds, b);
    law_every_line_gets_a_reply(b, state, line);
}


/// A script pattern is tried against the whole line: a pattern that compiles
/// matches exactly when the regular expression, without the white space
/// around the pattern, is found somewhere in the line without the white space
/// around it; a pattern that does not compile gives no answer.
pub proof fn law_pattern_is_searched_in_the_whole_line(text: Seq<char>, pattern: Seq<char>)
    ensures
        regex_compiles(trim_white_space(pattern)) ==> pattern_matches(text, pattern) == Some(
            regex_finds(trim_white_space(pattern), trim_white_space(text)),
        ),
        !regex_compiles(trim_white_space(pattern)) ==> pattern_matches(text, pattern) is None,
{
}

} // verus!
