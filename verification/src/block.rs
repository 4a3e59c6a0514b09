//! The block structure of a script and the state machine that builds it from
//! a script's commands.
use vstd::prelude::*;
use crate::command::{Command, CommandModel, commands_view};
use crate::script_text::wf_block;

verus! {

/// A whole script: its top-level `MATCH` blocks and its `UNKNOWN` reply.
#[derive(Debug, PartialEq)]
pub struct Block {
    pub matches: Vec<MatchBlock>,
    pub unknowing: UnknowingBlock,
}

/// A `MATCH` pattern with its reply, the `CASE`s that may follow it and the
/// `DEFAULT` reply when none of them matches.
#[derive(Debug, PartialEq)]
pub struct MatchBlock {
    pub mtch: String,
    pub response: String,
    pub cases: Option<Vec<CaseBlock>>,
    pub default: Option<String>,
}

/// A `CASE` pattern with its reply and the nested `MATCH` blocks that may
/// follow it.
#[derive(Debug, PartialEq)]
pub struct CaseBlock {
    pub case: String,
    pub response: String,
    pub matches: Option<Vec<MatchBlock>>,
}

/// The reply when nothing matches.
#[derive(Clone, Debug, PartialEq)]
pub struct UnknowingBlock {
    pub response: String,
}

/// A `MATCH` block with its text taken as sequences of characters.
pub struct MatchModel {
    pub mtch: Seq<char>,
    pub response: Seq<char>,
    pub cases: Option<Seq<CaseModel>>,
    pub default: Option<Seq<char>>,
}

/// A `CASE` block with its text taken as sequences of characters.
pub struct CaseModel {
    pub case: Seq<char>,
    pub response: Seq<char>,
    pub matches: Option<Seq<MatchModel>>,
}

/// A script's blocks with their text taken as sequences of characters.
pub struct BlockModel {
    pub matches: Seq<MatchModel>,
    pub unknowing: Seq<char>,
}

pub open spec fn opt_string_model(s: Option<String>) -> Option<Seq<char>> {
    match s {
        Some(s) => Some(s@),
        None => None,
    }
}

pub open spec fn match_model(m: MatchBlock) -> MatchModel
    decreases m,
{
    MatchModel {
        mtch: m.mtch@,
        response: m.response@,
        cases: match m.cases {
            Some(v) => Some(case_seq_model(v)),
            None => None,
        },
        default: opt_string_model(m.default),
    }
}

pub open spec fn case_seq_model(v: Vec<CaseBlock>) -> Seq<CaseModel>
    decreases v,
{
    Seq::new(
        v@.len(),
        |i: int|
            if 0 <= i < v@.len() {
                case_model(v@[i])
            } else {
                arbitrary()
            },
    )
}

pub open spec fn case_model(c: CaseBlock) -> CaseModel
    decreases c,
{
    CaseModel {
        case: c.case@,
        response: c.response@,
        matches: match c.matches {
            Some(v) => Some(match_seq_model(v)),
            None => None,
        },
    }
}

pub open spec fn match_seq_model(v: Vec<MatchBlock>) -> Seq<MatchModel>
    decreases v,
{
    Seq::new(
        v@.len(),
        |i: int|
            if 0 <= i < v@.len() {
                match_model(v@[i])
            } else {
                arbitrary()
            },
    )
}

pub open spec fn opt_cases_model(o: Option<Vec<CaseBlock>>) -> Option<Seq<CaseModel>> {
    match o {
        Some(v) => Some(case_seq_model(v)),
        None => None,
    }
}

pub open spec fn opt_matches_model(o: Option<Vec<MatchBlock>>) -> Option<Seq<MatchModel>> {
    match o {
        Some(v) => Some(match_seq_model(v)),
        None => None,
    }
}

pub open spec fn block_model(b: Block) -> BlockModel {
    BlockModel { matches: match_seq_model(b.matches), unknowing: b.unknowing.response@ }
}

proof fn lemma_match_seq_push(v1: Vec<MatchBlock>, v2: Vec<MatchBlock>, m: MatchBlock)
    requires
        v2@ == v1@.push(m),
    ensures
        match_seq_model(v2) == match_seq_model(v1).push(match_model(m)),
{
    assert(match_seq_model(v2) =~= match_seq_model(v1).push(match_model(m)));
}

proof fn lemma_match_seq_pop(v1: Vec<MatchBlock>, v2: Vec<MatchBlock>)
    requires
        v1@.len() > 0,
        v2@ == v1@.subrange(0, v1@.len() - 1),
    ensures
        match_seq_model(v2) == match_seq_model(v1).drop_last(),
        match_seq_model(v1).last() == match_model(v1@.last()),
        match_seq_model(v1).len() > 0,
{
    assert(match_seq_model(v2) =~= match_seq_model(v1).drop_last());
}

proof fn lemma_case_seq_push(v1: Vec<CaseBlock>, v2: Vec<CaseBlock>, c: CaseBlock)
    requires
        v2@ == v1@.push(c),
    ensures
        case_seq_model(v2) == case_seq_model(v1).push(case_model(c)),
{
    assert(case_seq_model(v2) =~= case_seq_model(v1).push(case_model(c)));
}

proof fn lemma_case_seq_pop(v1: Vec<CaseBlock>, v2: Vec<CaseBlock>)
    requires
        v1@.len() > 0,
        v2@ == v1@.subrange(0, v1@.len() - 1),
    ensures
        case_seq_model(v2) == case_seq_model(v1).drop_last(),
        case_seq_model(v1).last() == case_model(v1@.last()),
        case_seq_model(v1).len() > 0,
{
    assert(case_seq_model(v2) =~= case_seq_model(v1).drop_last());
}


/// The states of the reader of a script's commands: the last kind of command
/// that it took.
#[derive(Clone, Copy, Debug, PartialEq, Eq)]
pub enum Status {
    INITIAL,
    START,
    MATCH,
    MATCHANSWER,
    CASE,
    CASEANSWER,
    DEFAULT,
    DEFAULTANSWER,
    UNKNOWN,
    UNKNOWNANSWER,
    END,
}

/// The state of the reader between two commands.
///
/// `matches` holds the finished top-level blocks; `stack` the enclosing
/// `MATCH` blocks of the nested levels that are open, each with the `CASE` that
/// opened the level as its last case; `nest` counts the open levels.
pub struct BuildState {
    pub matches: Seq<MatchModel>,
    pub stack: Seq<MatchModel>,
    pub current_match: Option<MatchModel>,
    pub current_case: Option<CaseModel>,
    pub unknowing: Option<Seq<char>>,
    pub status: Status,
    pub nest: int,
}

/// What one command does to the reader: it goes on in a new state, or it ends
/// with the script's block or an error. `Abort` stands for the states where
/// what the reader needs is missing; `law_reading_never_aborts` shows that no
/// sequence of commands leads there.
pub enum BuildStep {
    Next(BuildState),
    Done(Result<BlockModel, Seq<char>>),
    Abort,
}

pub open spec fn initial_state() -> BuildState {
    BuildState {
        matches: Seq::empty(),
        stack: Seq::empty(),
        current_match: None,
        current_case: None,
        unknowing: None,
        status: Status::INITIAL,
        nest: 0,
    }
}

pub open spec fn new_match_model(pattern: Seq<char>) -> MatchModel {
    MatchModel { mtch: pattern, response: Seq::empty(), cases: None, default: None }
}

pub open spec fn new_case_model(pattern: Seq<char>) -> CaseModel {
    CaseModel { case: pattern, response: Seq::empty(), matches: None }
}

pub open spec fn add_case(cases: Option<Seq<CaseModel>>, c: CaseModel) -> Option<Seq<CaseModel>> {
    match cases {
        Some(v) => Some(v.push(c)),
        None => Some(seq![c]),
    }
}

pub open spec fn add_match(matches: Option<Seq<MatchModel>>, m: MatchModel) -> Option<
    Seq<MatchModel>,
> {
    match matches {
        Some(v) => Some(v.push(m)),
        None => Some(seq![m]),
    }
}

/// `START` opens the script, or a nested level under the `CASE` just answered;
/// anywhere else it is refused.
pub open spec fn on_start(s: BuildState) -> BuildStep {
    match s.status {
        Status::INITIAL => BuildStep::Next(BuildState { status: Status::START, nest: s.nest + 1, ..s }),
        Status::CASEANSWER => match (s.current_match, s.current_case) {
            (Some(m), Some(c)) => BuildStep::Next(
                BuildState {
                    stack: s.stack.push(MatchModel { cases: add_case(m.cases, c), ..m }),
                    current_match: None,
                    current_case: None,
                    status: Status::START,
                    nest: s.nest + 1,
                    ..s
                },
            ),
            _ => BuildStep::Abort,
        },
        _ => BuildStep::Done(Err("bad status try to trans to START"@)),
    }
}

/// The state after the `MATCH` block in progress is filed where it belongs:
/// in the top-level list at level one, under the open `CASE` at a nested level.
/// `None` where there is no such place.
pub open spec fn file_current_match(s: BuildState) -> Option<BuildState> {
    if s.nest > 1 {
        if s.stack.len() == 0 {
            None
        } else {
            let top = s.stack.last();
            match (top.cases, s.current_match) {
                (Some(cs), Some(m)) => if cs.len() == 0 {
                    None
                } else {
                    let last = cs.last();
                    let last2 = CaseModel { matches: add_match(last.matches, m), ..last };
                    let top2 = MatchModel { cases: Some(cs.drop_last().push(last2)), ..top };
                    Some(
                        BuildState {
                            stack: s.stack.drop_last().push(top2),
                            current_match: None,
                            ..s
                        },
                    )
                },
                _ => None,
            }
        }
    } else if s.nest == 1 {
        match s.current_match {
            Some(m) => Some(BuildState { matches: s.matches.push(m), current_match: None, ..s }),
            None => Some(s),
        }
    } else {
        Some(BuildState { current_match: None, ..s })
    }
}

/// `MATCH` starts a new block, after `START` or after a finished block.
pub open spec fn on_match(s: BuildState, pattern: Seq<char>) -> BuildStep {
    match s.status {
        Status::START => BuildStep::Next(
            BuildState {
                status: Status::MATCH,
                current_match: Some(new_match_model(pattern)),
                ..s
            },
        ),
        Status::MATCHANSWER | Status::DEFAULTANSWER => match file_current_match(s) {
            Some(s2) => BuildStep::Next(
                BuildState {
                    status: Status::MATCH,
                    current_match: Some(new_match_model(pattern)),
                    ..s2
                },
            ),
            None => BuildStep::Abort,
        },
        _ => BuildStep::Done(Err("接受Command::MATCH处于错误的状态"@)),
    }
}

/// `CASE` starts a case of the `MATCH` block just answered, or the next case.
pub open spec fn on_case(s: BuildState, pattern: Seq<char>) -> BuildStep {
    match s.status {
        Status::MATCHANSWER => BuildStep::Next(
            BuildState {
                status: Status::CASE,
                current_case: Some(new_case_model(pattern)),
                ..s
            },
        ),
        Status::CASEANSWER => match (s.current_case, s.current_match) {
            (Some(c), Some(m)) => BuildStep::Next(
                BuildState {
                    status: Status::CASE,
                    current_match: Some(MatchModel { cases: add_case(m.cases, c), ..m }),
                    current_case: Some(new_case_model(pattern)),
                    ..s
                },
            ),
            _ => BuildStep::Abort,
        },
        _ => BuildStep::Done(Err("bad status try to trans to CASE"@)),
    }
}

/// `RESPONSE` gives the reply of what the previous command opened.
pub open spec fn on_response(s: BuildState, reply: Seq<char>) -> BuildStep {
    match s.status {
        Status::MATCH => BuildStep::Next(
            BuildState {
                status: Status::MATCHANSWER,
                current_match: match s.current_match {
                    Some(m) => Some(MatchModel { response: reply, ..m }),
                    None => None,
                },
                ..s
            },
        ),
        Status::CASE => match s.current_case {
            Some(c) => BuildStep::Next(
                BuildState {
                    status: Status::CASEANSWER,
                    current_case: Some(CaseModel { response: reply, ..c }),
                    ..s
                },
            ),
            None => BuildStep::Abort,
        },
        Status::DEFAULT => match s.current_match {
            Some(m) => BuildStep::Next(
                BuildState {
                    status: Status::DEFAULTANSWER,
                    current_match: Some(MatchModel { default: Some(reply), ..m }),
                    ..s
                },
            ),
            None => BuildStep::Abort,
        },
        Status::UNKNOWN => match s.unknowing {
            Some(_) => BuildStep::Next(
                BuildState { status: Status::UNKNOWNANSWER, unknowing: Some(reply), ..s },
            ),
            None => BuildStep::Abort,
        },
        _ => BuildStep::Done(Err("answer state wrong"@)),
    }
}

/// `END` closes the script at level one, or the innermost nested level.
pub open spec fn on_end(s: BuildState) -> BuildStep {
    if s.nest == 1 {
        match s.status {
            Status::MATCHANSWER | Status::UNKNOWNANSWER => {
                if s.matches.len() == 0 || s.unknowing is None {
                    BuildStep::Done(Err("Invalid command sequence"@))
                } else {
                    BuildStep::Done(
                        Ok(BlockModel { matches: s.matches, unknowing: s.unknowing->0 }),
                    )
                }
            },
            _ => BuildStep::Done(Err("nest_level == 1, end state wrong"@)),
        }
    } else if s.nest > 1 {
        match s.status {
            Status::MATCHANSWER | Status::DEFAULTANSWER => {
                if s.stack.len() == 0 {
                    BuildStep::Abort
                } else {
                    let tem = s.stack.last();
                    match tem.cases {
                        None => BuildStep::Abort,
                        Some(cs) => if cs.len() == 0 {
                            BuildStep::Next(
                                BuildState {
                                    stack: s.stack.drop_last(),
                                    current_match: Some(tem),
                                    current_case: None,
                                    status: Status::CASEANSWER,
                                    nest: s.nest - 1,
                                    ..s
                                },
                            )
                        } else {
                            match s.current_match {
                                None => BuildStep::Abort,
                                Some(m) => {
                                    let c = cs.last();
                                    BuildStep::Next(
                                        BuildState {
                                            stack: s.stack.drop_last(),
                                            current_match: Some(
                                                MatchModel { cases: Some(cs.drop_last()), ..tem },
                                            ),
                                            current_case: Some(
                                                CaseModel { matches: add_match(c.matches, m), ..c },
                                            ),
                                            status: Status::CASEANSWER,
                                            nest: s.nest - 1,
                                            ..s
                                        },
                                    )
                                },
                            }
                        },
                    }
                }
            },
            _ => BuildStep::Done(Err("nest_level > 1, end state wrong"@)),
        }
    } else {
        BuildStep::Done(Err("nest_level < 1, end state wrong"@))
    }
}

/// `UNKNOWN` files the last `MATCH` block and opens the reply for no match.
pub open spec fn on_unknown(s: BuildState) -> BuildStep {
    match s.status {
        Status::MATCHANSWER | Status::DEFAULTANSWER => match s.current_match {
            Some(m) => if s.unknowing is Some {
                BuildStep::Done(Err("repeated unknowing"@))
            } else {
                BuildStep::Next(
                    BuildState {
                        matches: s.matches.push(m),
                        current_match: None,
                        status: Status::UNKNOWN,
                        unknowing: Some(Seq::empty()),
                        ..s
                    },
                )
            },
            None => BuildStep::Abort,
        },
        _ => BuildStep::Done(Err("nest_level == 1, end state wrong"@)),
    }
}

/// `DEFAULT` files the case just answered and opens the default reply; it is
/// refused anywhere but after a case's reply.
pub open spec fn on_default(s: BuildState) -> BuildStep {
    match s.status {
        Status::CASEANSWER => match (s.current_match, s.current_case) {
            (Some(m), Some(c)) => BuildStep::Next(
                BuildState {
                    status: Status::DEFAULT,
                    current_match: Some(MatchModel { cases: add_case(m.cases, c), ..m }),
                    current_case: None,
                    ..s
                },
            ),
            _ => BuildStep::Abort,
        },
        _ => BuildStep::Done(Err("bad cmd on DEFAULT"@)),
    }
}

pub open spec fn build_step(s: BuildState, cmd: CommandModel) -> BuildStep {
    match cmd {
        CommandModel::Start => on_start(s),
        CommandModel::Match(p) => on_match(s, p),
        CommandModel::Case(p) => on_case(s, p),
        CommandModel::Response(r) => on_response(s, r),
        CommandModel::End => on_end(s),
        CommandModel::Unknown => on_unknown(s),
        CommandModel::Default => on_default(s),
    }
}

/// Feeds the commands to the reader one after the other; `Next` when they
/// run out before the reading ended.
pub open spec fn run_commands(s: BuildState, cmds: Seq<CommandModel>) -> BuildStep
    decreases cmds.len(),
{
    if cmds.len() == 0 {
        BuildStep::Next(s)
    } else {
        match build_step(s, cmds[0]) {
            BuildStep::Next(s2) => run_commands(s2, cmds.drop_first()),
            other => other,
        }
    }
}

/// What reading a script's commands gives: its block or an error (`None`
/// where the reader aborts, which never happens).
pub open spec fn script_blocks(cmds: Seq<CommandModel>) -> Option<Result<BlockModel, Seq<char>>> {
    match run_commands(initial_state(), cmds) {
        BuildStep::Next(_) => Some(Err("Unexpected Default command"@)),
        BuildStep::Done(r) => Some(r),
        BuildStep::Abort => None,
    }
}


/// The reader's state as the commands are taken.
struct Builder {
    matches: Vec<MatchBlock>,
    stack: Vec<MatchBlock>,
    current_match: Option<MatchBlock>,
    current_case: Option<CaseBlock>,
    unknowing: Option<UnknowingBlock>,
    status: Status,
    nest: usize,
}

pub open spec fn opt_match_model(o: Option<MatchBlock>) -> Option<MatchModel> {
    match o {
        Some(m) => Some(match_model(m)),
        None => None,
    }
}

pub open spec fn opt_case_model(o: Option<CaseBlock>) -> Option<CaseModel> {
    match o {
        Some(c) => Some(case_model(c)),
        None => None,
    }
}

spec fn builder_model(b: Builder) -> BuildState {
    BuildState {
        matches: match_seq_model(b.matches),
        stack: match_seq_model(b.stack),
        current_match: opt_match_model(b.current_match),
        current_case: opt_case_model(b.current_case),
        unknowing: match b.unknowing {
            Some(u) => Some(u.response@),
            None => None,
        },
        status: b.status,
        nest: b.nest as int,
    }
}

enum Progress {
    Next(Builder),
    Done(Result<Block, &'static str>),
    Abort,
}

spec fn progress_model(p: Progress) -> BuildStep {
    match p {
        Progress::Next(b) => BuildStep::Next(builder_model(b)),
        Progress::Done(Ok(b)) => BuildStep::Done(Ok(block_model(b))),
        Progress::Done(Err(e)) => BuildStep::Done(Err(e@)),
        Progress::Abort => BuildStep::Abort,
    }
}

fn new_match_block(pattern: &String) -> (m: MatchBlock)
    ensures
        match_model(m) == new_match_model(pattern@),
{
    MatchBlock { mtch: pattern.clone(), response: String::new(), cases: None, default: None }
}

fn new_case_block(pattern: &String) -> (c: CaseBlock)
    ensures
        case_model(c) == new_case_model(pattern@),
{
    CaseBlock { case: pattern.clone(), response: String::new(), matches: None }
}

fn with_case(cases: Option<Vec<CaseBlock>>, c: CaseBlock) -> (r: Option<Vec<CaseBlock>>)
    ensures
        opt_cases_model(r) == add_case(opt_cases_model(cases), case_model(c)),
{
    match cases {
        Some(mut v) => {
            let ghost v0 = v;
            v.push(c);
            proof {
                lemma_case_seq_push(v0, v, c);
            }
            Some(v)
        },
        None => {
            let mut v: Vec<CaseBlock> = Vec::new();
            let ghost v0 = v;
            v.push(c);
            proof {
                lemma_case_seq_push(v0, v, c);
                assert(case_seq_model(v0) =~= Seq::<CaseModel>::empty());
                assert(case_seq_model(v) =~= seq![case_model(c)]);
            }
            Some(v)
        },
    }
}

fn with_match(matches: Option<Vec<MatchBlock>>, m: MatchBlock) -> (r: Option<Vec<MatchBlock>>)
    ensures
        opt_matches_model(r) == add_match(opt_matches_model(matches), match_model(m)),
{
    match matches {
        Some(mut v) => {
            let ghost v0 = v;
            v.push(m);
            proof {
                lemma_match_seq_push(v0, v, m);
            }
            Some(v)
        },
        None => {
            let mut v: Vec<MatchBlock> = Vec::new();
            let ghost v0 = v;
            v.push(m);
            proof {
                lemma_match_seq_push(v0, v, m);
                assert(match_seq_model(v0) =~= Seq::<MatchModel>::empty());
                assert(match_seq_model(v) =~= seq![match_model(m)]);
            }
            Some(v)
        },
    }
}

fn step_start(b: Builder) -> (p: Progress)
    requires
        b.nest < usize::MAX,
    ensures
        progress_model(p) == on_start(builder_model(b)),
{
    let Builder { matches, mut stack, current_match, current_case, unknowing, status, nest } = b;
    match status {
        Status::INITIAL => Progress::Next(
            Builder {
                matches,
                stack,
                current_match,
                current_case,
                unknowing,
                status: Status::START,
                nest: nest + 1,
            },
        ),
        Status::CASEANSWER => match (current_match, current_case) {
            (Some(m), Some(c)) => {
                let MatchBlock { mtch, response, cases, default } = m;
                let m2 = MatchBlock { mtch, response, cases: with_case(cases, c), default };
                let ghost s0 = stack;
                stack.push(m2);
                proof {
                    lemma_match_seq_push(s0, stack, m2);
                }
                Progress::Next(
                    Builder {
                        matches,
                        stack,
                        current_match: None,
                        current_case: None,
                        unknowing,
                        status: Status::START,
                        nest: nest + 1,
                    },
                )
            },
            _ => Progress::Abort,
        },
        _ => Progress::Done(Err("bad status try to trans to START")),
    }
}


fn file_match(b: Builder) -> (r: Option<Builder>)
    ensures
        match r {
            Some(b2) => file_current_match(builder_model(b)) == Some(builder_model(b2)),
            None => file_current_match(builder_model(b)) is None,
        },
{
    let Builder { mut matches, mut stack, current_match, current_case, unknowing, status, nest } =
        b;
    if nest > 1 {
        let ghost s0 = stack;
        match stack.pop() {
            None => None,
            Some(top) => {
                proof {
                    lemma_match_seq_pop(s0, stack);
                }
                let ghost s1 = stack;
                let MatchBlock { mtch, response, cases, default } = top;
                match (cases, current_match) {
                    (Some(mut cs), Some(m)) => {
                        let ghost c0 = cs;
                        match cs.pop() {
                            None => None,
                            Some(last) => {
                                proof {
                                    lemma_case_seq_pop(c0, cs);
                                }
                                let ghost c1 = cs;
                                let CaseBlock { case, response: case_response, matches: inner } =
                                    last;
                                let last2 = CaseBlock {
                                    case,
                                    response: case_response,
                                    matches: with_match(inner, m),
                                };
                                cs.push(last2);
                                proof {
                                    lemma_case_seq_push(c1, cs, last2);
                                }
                                let top2 = MatchBlock { mtch, response, cases: Some(cs), default };
                                stack.push(top2);
                                proof {
                                    lemma_match_seq_push(s1, stack, top2);
                                }
                                Some(
                                    Builder {
                                        matches,
                                        stack,
                                        current_match: None,
                                        current_case,
                                        unknowing,
                                        status,
                                        nest,
                                    },
                                )
                            },
                        }
                    },
                    _ => None,
                }
            },
        }
    } else if nest == 1 {
        match current_match {
            Some(m) => {
                let ghost m0 = matches;
                matches.push(m);
                proof {
                    lemma_match_seq_push(m0, matches, m);
                }
                Some(
                    Builder {
                        matches,
                        stack,
                        current_match: None,
                        current_case,
                        unknowing,
                        status,
                        nest,
                    },
                )
            },
            None => Some(
                Builder { matches, stack, current_match: None, current_case, unknowing, status, nest },
            ),
        }
    } else {
        Some(Builder { matches, stack, current_match: None, current_case, unknowing, status, nest })
    }
}


fn step_match(b: Builder, pattern: &String) -> (p: Progress)
    ensures
        progress_model(p) == on_match(builder_model(b), pattern@),
{
    match b.status {
        Status::START => {
            let Builder { matches, stack, current_match, current_case, unknowing, status, nest } =
                b;
            Progress::Next(
                Builder {
                    matches,
                    stack,
                    current_match: Some(new_match_block(pattern)),
                    current_case,
                    unknowing,
                    status: Status::MATCH,
                    nest,
                },
            )
        },
        Status::MATCHANSWER | Status::DEFAULTANSWER => match file_match(b) {
            Some(b2) => {
                let Builder { matches, stack, current_match, current_case, unknowing, status, nest } =
                    b2;
                Progress::Next(
                    Builder {
                        matches,
                        stack,
                        current_match: Some(new_match_block(pattern)),
                        current_case,
                        unknowing,
                        status: Status::MATCH,
                        nest,
                    },
                )
            },
            None => Progress::Abort,
        },
        _ => Progress::Done(Err("接受Command::MATCH处于错误的状态")),
    }
}

fn step_case(b: Builder, pattern: &String) -> (p: Progress)
    ensures
        progress_model(p) == on_case(builder_model(b), pattern@),
{
    let Builder { matches, stack, current_match, current_case, unknowing, status, nest } = b;
    match status {
        Status::MATCHANSWER => Progress::Next(
            Builder {
                matches,
                stack,
                current_match,
                current_case: Some(new_case_block(pattern)),
                unknowing,
                status: Status::CASE,
                nest,
            },
        ),
        Status::CASEANSWER => match (current_case, current_match) {
            (Some(c), Some(m)) => {
                let MatchBlock { mtch, response, cases, default } = m;
                let m2 = MatchBlock { mtch, response, cases: with_case(cases, c), default };
                Progress::Next(
                    Builder {
                        matches,
                        stack,
                        current_match: Some(m2),
                        current_case: Some(new_case_block(pattern)),
                        unknowing,
                        status: Status::CASE,
                        nest,
                    },
                )
            },
            _ => Progress::Abort,
        },
        _ => Progress::Done(Err("bad status try to trans to CASE")),
    }
}

fn step_response(b: Builder, reply: &String) -> (p: Progress)
    ensures
        progress_model(p) == on_response(builder_model(b), reply@),
{
    let Builder { matches, stack, current_match, current_case, unknowing, status, nest } = b;
    match status {
        Status::MATCH => {
            let current_match = match current_match {
                Some(m) => {
                    let MatchBlock { mtch, response, cases, default } = m;
                    Some(MatchBlock { mtch, response: reply.clone(), cases, default })
                },
                None => None,
            };
            Progress::Next(
                Builder {
                    matches,
                    stack,
                    current_match,
                    current_case,
                    unknowing,
                    status: Status::MATCHANSWER,
                    nest,
                },
            )
        },
        Status::CASE => match current_case {
            Some(c) => {
                let CaseBlock { case, response, matches: inner } = c;
                Progress::Next(
                    Builder {
                        matches,
                        stack,
                        current_match,
                        current_case: Some(
                            CaseBlock { case, response: reply.clone(), matches: inner },
                        ),
                        unknowing,
                        status: Status::CASEANSWER,
                        nest,
                    },
                )
            },
            None => Progress::Abort,
        },
        Status::DEFAULT => match current_match {
            Some(m) => {
                let MatchBlock { mtch, response, cases, default } = m;
                Progress::Next(
                    Builder {
                        matches,
                        stack,
                        current_match: Some(
                            MatchBlock { mtch, response, cases, default: Some(reply.clone()) },
                        ),
                        current_case,
                        unknowing,
                        status: Status::DEFAULTANSWER,
                        nest,
                    },
                )
            },
            None => Progress::Abort,
        },
        Status::UNKNOWN => match unknowing {
            Some(_) => Progress::Next(
                Builder {
                    matches,
                    stack,
                    current_match,
                    current_case,
                    unknowing: Some(UnknowingBlock { response: reply.clone() }),
                    status: Status::UNKNOWNANSWER,
                    nest,
                },
            ),
            None => Progress::Abort,
        },
        _ => Progress::Done(Err("answer state wrong")),
    }
}

fn step_end(b: Builder) -> (p: Progress)
    ensures
        progress_model(p) == on_end(builder_model(b)),
{
    let Builder { matches, mut stack, current_match, current_case, unknowing, status, nest } = b;
    if nest == 1 {
        match status {
            Status::MATCHANSWER | Status::UNKNOWNANSWER => {
                if matches.len() == 0 {
                    Progress::Done(Err("Invalid command sequence"))
                } else {
                    match unknowing {
                        None => Progress::Done(Err("Invalid command sequence")),
                        Some(u) => Progress::Done(Ok(Block { matches, unknowing: u })),
                    }
                }
            },
            _ => Progress::Done(Err("nest_level == 1, end state wrong")),
        }
    } else if nest > 1 {
        match status {
            Status::MATCHANSWER | Status::DEFAULTANSWER => {
                let ghost s0 = stack;
                match stack.pop() {
                    None => Progress::Abort,
                    Some(tem) => {
                        proof {
                            lemma_match_seq_pop(s0, stack);
                        }
                        let MatchBlock { mtch, response, cases, default } = tem;
                        match cases {
                            None => Progress::Abort,
                            Some(mut cs) => {
                                let ghost c0 = cs;
                                match cs.pop() {
                                    None => Progress::Next(
                                        Builder {
                                            matches,
                                            stack,
                                            current_match: Some(
                                                MatchBlock { mtch, response, cases: Some(cs), default },
                                            ),
                                            current_case: None,
                                            unknowing,
                                            status: Status::CASEANSWER,
                                            nest: nest - 1,
                                        },
                                    ),
                                    Some(c) => {
                                        proof {
                                            lemma_case_seq_pop(c0, cs);
                                        }
                                        match current_match {
                                            None => Progress::Abort,
                                            Some(m) => {
                                                let CaseBlock { case, response: case_response, matches: inner } = c;
                                                let c2 = CaseBlock {
                                                    case,
                                                    response: case_response,
                                                    matches: with_match(inner, m),
                                                };
                                                Progress::Next(
                                                    Builder {
                                                        matches,
                                                        stack,
                                                        current_match: Some(
                                                            MatchBlock {
                                                                mtch,
                                                                response,
                                                                cases: Some(cs),
                                                                default,
                                                            },
                                                        ),
                                                        current_case: Some(c2),
                                                        unknowing,
                                                        status: Status::CASEANSWER,
                                                        nest: nest - 1,
                                                    },
                                                )
                                            },
                                        }
                                    },
                                }
                            },
                        }
                    },
                }
            },
            _ => Progress::Done(Err("nest_level > 1, end state wrong")),
        }
    } else {
        Progress::Done(Err("nest_level < 1, end state wrong"))
    }
}

fn step_unknown(b: Builder) -> (p: Progress)
    ensures
        progress_model(p) == on_unknown(builder_model(b)),
{
    let Builder { mut matches, stack, current_match, current_case, unknowing, status, nest } = b;
    match status {
        Status::MATCHANSWER | Status::DEFAULTANSWER => match current_match {
            Some(m) => {
                if unknowing.is_some() {
                    Progress::Done(Err("repeated unknowing"))
                } else {
                    let ghost m0 = matches;
                    matches.push(m);
                    proof {
                        lemma_match_seq_push(m0, matches, m);
                    }
                    Progress::Next(
                        Builder {
                            matches,
                            stack,
                            current_match: None,
                            current_case,
                            unknowing: Some(UnknowingBlock { response: String::new() }),
                            status: Status::UNKNOWN,
                            nest,
                        },
                    )
                }
            },
            None => Progress::Abort,
        },
        _ => Progress::Done(Err("nest_level == 1, end state wrong")),
    }
}

fn step_default(b: Builder) -> (p: Progress)
    ensures
        progress_model(p) == on_default(builder_model(b)),
{
    let Builder { matches, stack, current_match, current_case, unknowing, status, nest } = b;
    match status {
        Status::CASEANSWER => match (current_match, current_case) {
            (Some(m), Some(c)) => {
                let MatchBlock { mtch, response, cases, default } = m;
                let m2 = MatchBlock { mtch, response, cases: with_case(cases, c), default };
                Progress::Next(
                    Builder {
                        matches,
                        stack,
                        current_match: Some(m2),
                        current_case: None,
                        unknowing,
                        status: Status::DEFAULT,
                        nest,
                    },
                )
            },
            _ => Progress::Abort,
        },
        _ => Progress::Done(Err("bad cmd on DEFAULT")),
    }
}

fn step(b: Builder, cmd: &Command) -> (p: Progress)
    requires
        b.nest < usize::MAX,
    ensures
        progress_model(p) == build_step(builder_model(b), cmd@),
{
    match cmd {
        Command::START => step_start(b),
        Command::MATCH(pattern) => step_match(b, pattern),
        Command::CASE(pattern) => step_case(b, pattern),
        Command::RESPONSE(reply) => step_response(b, reply),
        Command::END => step_end(b),
        Command::UNKNOWN => step_unknown(b),
        Command::DEFAULT => step_default(b),
    }
}


proof fn lemma_step_nest(s: BuildState, cmd: CommandModel)
    ensures
        build_step(s, cmd) matches BuildStep::Next(s2) ==> s2.nest <= s.nest + 1,
{
}

pub open spec fn result_block_model(r: Result<Block, &'static str>) -> Result<BlockModel, Seq<char>> {
    match r {
        Ok(b) => Ok(block_model(b)),
        Err(e) => Err(e@),
    }
}

/// Runs the reader over a script's commands; `None` where it aborts, which
/// `law_reading_never_aborts` rules out.
fn read_commands(commands: &Vec<Command>) -> (r: Option<
    Result<Block, &'static str>,
>)
    ensures
        match r {
            Some(res) => script_blocks(commands_view(commands@)) == Some(result_block_model(res)),
            None => script_blocks(commands_view(commands@)) is None,
        },
{
    let ghost cv = commands_view(commands@);
    let mut b = Builder {
        matches: Vec::new(),
        stack: Vec::new(),
        current_match: None,
        current_case: None,
        unknowing: None,
        status: Status::INITIAL,
        nest: 0,
    };
    proof {
        assert(match_seq_model(b.matches) =~= Seq::<MatchModel>::empty());
        assert(match_seq_model(b.stack) =~= Seq::<MatchModel>::empty());
        assert(builder_model(b) == initial_state());
        assert(cv.skip(0) =~= cv);
    }
    let mut i: usize = 0;
    while i < commands.len()
        invariant
            i <= commands@.len(),
            cv == commands_view(commands@),
            b.nest <= i,
            run_commands(builder_model(b), cv.skip(i as int)) == run_commands(initial_state(), cv),
        decreases commands@.len() - i,
    {
        let ghost s = builder_model(b);
        proof {
            lemma_step_nest(s, cv[i as int]);
            assert(cv.skip(i as int)[0] == cv[i as int]);
            assert(cv.skip(i as int).drop_first() =~= cv.skip(i + 1));
        }
        match step(b, &commands[i]) {
            Progress::Next(b2) => {
                b = b2;
            },
            Progress::Done(r) => {
                return Some(r);
            },
            Progress::Abort => {
                return None;
            },
        }
        i = i + 1;
    }
    Some(Err("Unexpected Default command"))
}

/// Reads a script's commands into its block, or into the error that stops the
/// reading: the first command that the reader's state cannot take.
pub fn parse_commands_to_blocks(commands: Vec<Command>) -> (r: Result<Block, &'static str>)
    ensures
        script_blocks(commands_view(commands@)) == Some(result_block_model(r)),
        r matches Ok(b) ==> wf_block(block_model(b)),
{
    proof {
        crate::block_laws::law_reading_never_aborts(commands_view(commands@));
    }
    match read_commands(&commands) {
        Some(r) => {
            let ghost g = r;
            proof {
                if let Ok(b) = g {
                    crate::block_laws::law_read_blocks_are_well_formed(
                        commands_view(commands@),
                        block_model(b),
                    );
                }
            }
            r
        },
        None => {
            proof {
                assert(false);
            }
            Err("Unexpected Default command")
        },
    }
}

/// A copy of a `MATCH` block with all that is nested in it.
pub fn clone_match(m: &MatchBlock) -> (r: MatchBlock)
    ensures
        match_model(r) == match_model(*m),
    decreases m,
{
    let cases = match &m.cases {
        Some(v) => {
            let mut out: Vec<CaseBlock> = Vec::new();
            let mut i: usize = 0;
            while i < v.len()
                invariant
                    i <= v@.len(),
                    out@.len() == i,
                    m.cases == Some(*v),
                    forall|k: int| 0 <= k < i ==> case_model(#[trigger] out@[k]) == case_model(v@[k]),
                decreases v@.len() - i,
            {
                proof {
                    assert(decreases_to!(m.cases => m.cases->0));
                    assert(decreases_to!(*v => v@));
                }
                let c = clone_case(&v[i]);
                out.push(c);
                i = i + 1;
            }
            assert(case_seq_model(out) =~= case_seq_model(*v));
            Some(out)
        },
        None => None,
    };
    let default = match &m.default {
        Some(d) => Some(d.clone()),
        None => None,
    };
    MatchBlock { mtch: m.mtch.clone(), response: m.response.clone(), cases, default }
}

/// A copy of a `CASE` block with all that is nested in it.
pub fn clone_case(c: &CaseBlock) -> (r: CaseBlock)
    ensures
        case_model(r) == case_model(*c),
    decreases c,
{
    let matches = match &c.matches {
        Some(v) => {
            let mut out: Vec<MatchBlock> = Vec::new();
            let mut i: usize = 0;
            while i < v.len()
                invariant
                    i <= v@.len(),
                    out@.len() == i,
                    c.matches == Some(*v),
                    forall|k: int| 0 <= k < i ==> match_model(#[trigger] out@[k]) == match_model(v@[k]),
                decreases v@.len() - i,
            {
                proof {
                    assert(decreases_to!(c.matches => c.matches->0));
                    assert(decreases_to!(*v => v@));
                }
                let m = clone_match(&v[i]);
                out.push(m);
                i = i + 1;
            }
            assert(match_seq_model(out) =~= match_seq_model(*v));
            Some(out)
        },
        None => None,
    };
    CaseBlock { case: c.case.clone(), response: c.response.clone(), matches }
}


impl Clone for MatchBlock {
    fn clone(&self) -> (r: Self)
        ensures
            match_model(r) == match_model(*self),
    {
        clone_match(self)
    }
}

impl Clone for CaseBlock {
    fn clone(&self) -> (r: Self)
        ensures
            case_model(r) == case_model(*self),
    {
        clone_case(self)
    }
}


impl Clone for Block {
    fn clone(&self) -> (r: Self)
        ensures
            block_model(r) == block_model(*self),
    {
        let mut matches: Vec<MatchBlock> = Vec::new();
        let mut i: usize = 0;
        while i < self.matches.len()
            invariant
                i <= self.matches@.len(),
                matches@.len() == i,
                forall|k: int|
                    0 <= k < i ==> match_model(#[trigger] matches@[k]) == match_model(
                        self.matches@[k],
                    ),
            decreases self.matches@.len() - i,
        {
            matches.push(clone_match(&self.matches[i]));
            i = i + 1;
        }
        assert(match_seq_model(matches) =~= match_seq_model(self.matches));
        Block { matches, unknowing: UnknowingBlock { response: self.unknowing.response.clone() } }
    }
}

} // verus!
