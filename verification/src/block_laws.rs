//! What reading a script promises: a script written in the language's form
//! reads back as the structure it writes down, and every script that reads
//! well opens with `START` and holds a `MATCH` block.
use vstd::prelude::*;
use crate::block::{
    BlockModel, BuildState, BuildStep, CaseModel, MatchModel, Status, add_case, add_match,
    build_step, file_current_match, initial_state, new_case_model, new_match_model, run_commands,
    script_blocks,
};
use crate::command::CommandModel;
use crate::script_text::{
    case_commands, case_list_commands, match_commands, match_list_commands, script_commands,
    wf_block, wf_case, wf_match,
};

verus! {

/// Running `a` then `b` is running `a + b`.
proof fn lemma_run_append(s: BuildState, a: Seq<CommandModel>, b: Seq<CommandModel>)
    ensures
        run_commands(s, a + b) == match run_commands(s, a) {
            BuildStep::Next(s2) => run_commands(s2, b),
            other => other,
        },
    decreases a.len(),
{
    if a.len() == 0 {
        assert(a + b =~= b);
    } else {
        assert((a + b)[0] == a[0]);
        assert((a + b).drop_first() =~= a.drop_first() + b);
        match build_step(s, a[0]) {
            BuildStep::Next(s2) => {
                lemma_run_append(s2, a.drop_first(), b);
            },
            _ => {},
        }
    }
}

proof fn lemma_run_one(s: BuildState, c: CommandModel, rest: Seq<CommandModel>)
    ensures
        run_commands(s, seq![c] + rest) == match build_step(s, c) {
            BuildStep::Next(s2) => run_commands(s2, rest),
            other => other,
        },
{
    assert((seq![c] + rest)[0] == c);
    assert((seq![c] + rest).drop_first() =~= rest);
}

spec fn cases_seq(o: Option<Seq<CaseModel>>) -> Seq<CaseModel> {
    match o {
        Some(v) => v,
        None => Seq::empty(),
    }
}

spec fn append_matches(o: Option<Seq<MatchModel>>, ms: Seq<MatchModel>) -> Option<Seq<MatchModel>> {
    if ms.len() == 0 {
        o
    } else {
        match o {
            Some(v) => Some(v + ms),
            None => Some(ms),
        }
    }
}

/// The place that finished `MATCH` blocks go to exists.
spec fn frame_ok(s: BuildState) -> bool {
    &&& s.nest >= 1
    &&& s.nest > 1 ==> {
        &&& s.stack.len() > 0
        &&& s.stack.last().cases is Some
        &&& s.stack.last().cases->0.len() > 0
    }
}

/// The state once `ms` have been filed where finished `MATCH` blocks go.
spec fn deposit(s: BuildState, ms: Seq<MatchModel>) -> BuildState {
    if s.nest > 1 {
        let top = s.stack.last();
        let cs = top.cases->0;
        let c = cs.last();
        let c2 = CaseModel { matches: append_matches(c.matches, ms), ..c };
        BuildState {
            stack: s.stack.drop_last().push(MatchModel { cases: Some(cs.drop_last().push(c2)), ..top }),
            ..s
        }
    } else {
        BuildState { matches: s.matches + ms, ..s }
    }
}

spec fn answered(m: MatchModel) -> Status {
    if m.cases is Some {
        Status::DEFAULTANSWER
    } else {
        Status::MATCHANSWER
    }
}

proof fn lemma_append_matches(o: Option<Seq<MatchModel>>, a: Seq<MatchModel>, b: Seq<MatchModel>)
    ensures
        append_matches(append_matches(o, a), b) == append_matches(o, a + b),
{
    if a.len() == 0 {
        assert(a + b =~= b);
    } else if b.len() == 0 {
        assert(a + b =~= a);
    } else {
        match o {
            Some(v) => {
                assert(v + a + b =~= v + (a + b));
            },
            None => {},
        }
    }
}

proof fn lemma_deposit_empty(s: BuildState)
    requires
        frame_ok(s),
    ensures
        deposit(s, Seq::empty()) == s,
{
    if s.nest > 1 {
        let top = s.stack.last();
        let cs = top.cases->0;
        assert(cs.drop_last().push(cs.last()) =~= cs);
        assert(s.stack.drop_last().push(top) =~= s.stack);
    } else {
        assert(s.matches + Seq::<MatchModel>::empty() =~= s.matches);
    }
}

proof fn lemma_deposit_compose(s: BuildState, a: Seq<MatchModel>, b: Seq<MatchModel>)
    requires
        frame_ok(s),
    ensures
        frame_ok(deposit(s, a)),
        deposit(deposit(s, a), b) == deposit(s, a + b),
{
    if s.nest > 1 {
        let top = s.stack.last();
        let cs = top.cases->0;
        let c = cs.last();
        lemma_append_matches(c.matches, a, b);
        let s1 = deposit(s, a);
        let c1 = CaseModel { matches: append_matches(c.matches, a), ..c };
        let top1 = MatchModel { cases: Some(cs.drop_last().push(c1)), ..top };
        assert(s1.stack.last() == top1);
        assert(s1.stack.drop_last() =~= s.stack.drop_last());
        assert(top1.cases->0.drop_last() =~= cs.drop_last());
        assert(top1.cases->0.last() == c1);
    } else {
        assert(s.matches + a + b =~= s.matches + (a + b));
    }
}

/// Filing the `MATCH` block in progress is depositing it.
proof fn lemma_file_one(s: BuildState, m: MatchModel)
    requires
        frame_ok(s),
        s.current_match == Some(m),
    ensures
        file_current_match(s) == Some(BuildState { current_match: None, ..deposit(s, seq![m]) }),
{
    if s.nest > 1 {
        let c = s.stack.last().cases->0.last();
        match c.matches {
            Some(v) => {
                assert(v.push(m) =~= v + seq![m]);
            },
            None => {},
        }
    } else {
        assert(s.matches.push(m) =~= s.matches + seq![m]);
    }
}


/// The `MATCH` block in progress once a `CASE` block is done with: a case
/// with nested blocks leaves its list of cases present, though it may be empty.
spec fn after_case(c: CaseModel, mc: MatchModel) -> MatchModel {
    if c.matches is Some {
        MatchModel { cases: Some(cases_seq(mc.cases)), ..mc }
    } else {
        mc
    }
}

proof fn lemma_append_last(ms: Seq<MatchModel>)
    requires
        ms.len() > 0,
    ensures
        add_match(append_matches(None, ms.drop_last()), ms.last()) == Some(ms),
{
    assert(ms.drop_last().push(ms.last()) =~= ms);
    if ms.len() == 1 {
        assert(seq![ms.last()] =~= ms);
    }
}

/// The rest of a `MATCH` block after its `MATCH` command builds the block.
proof fn lemma_item_body(m: MatchModel, s: BuildState)
    requires
        wf_match(m),
        frame_ok(s),
        s.status == Status::MATCH,
        s.current_match == Some(new_match_model(m.mtch)),
        s.current_case is None,
    ensures
        run_commands(s, match_commands(m).drop_first()) == BuildStep::Next(
            BuildState { status: answered(m), current_match: Some(m), ..s },
        ),
    decreases m,
{
    let m0 = MatchModel { response: m.response, ..new_match_model(m.mtch) };
    let s1 = BuildState { status: Status::MATCHANSWER, current_match: Some(m0), ..s };
    assert(build_step(s, CommandModel::Response(m.response)) == BuildStep::Next(s1));
    match m.cases {
        None => {
            assert(match_commands(m).drop_first() =~= seq![CommandModel::Response(m.response)]
                + Seq::<CommandModel>::empty());
            lemma_run_one(s, CommandModel::Response(m.response), Seq::empty());
            assert(m0 == m);
        },
        Some(cs) => {
            let d = m.default->0;
            let c0 = cs[0];
            let rest = cs.drop_first();
            let closing = seq![CommandModel::Default, CommandModel::Response(d)];
            let body = case_commands(c0).drop_first();
            assert(case_commands(c0) =~= seq![CommandModel::Case(c0.case)] + body);
            assert(case_list_commands(cs) == case_commands(c0) + case_list_commands(rest));
            let tail = case_list_commands(rest) + closing;
            assert(match_commands(m).drop_first() =~= seq![CommandModel::Response(m.response)] + (
            seq![CommandModel::Case(c0.case)] + (body + tail)));
            lemma_run_one(
                s,
                CommandModel::Response(m.response),
                seq![CommandModel::Case(c0.case)] + (body + tail),
            );
            let s2 = BuildState {
                status: Status::CASE,
                current_case: Some(new_case_model(c0.case)),
                ..s1
            };
            assert(build_step(s1, CommandModel::Case(c0.case)) == BuildStep::Next(s2));
            lemma_run_one(s1, CommandModel::Case(c0.case), body + tail);
            assert(decreases_to!(m => m.cases));
            assert(decreases_to!(m.cases => cs));
            assert(decreases_to!(cs => cs[0]));
            assert(rest == cs.subrange(1, cs.len() as int));
            assert(decreases_to!(cs => rest));
            assert(wf_case(c0));
            lemma_case_body(c0, s2, m0);
            let m0n = after_case(c0, m0);
            let s3 = BuildState {
                status: Status::CASEANSWER,
                current_case: Some(c0),
                current_match: Some(m0n),
                ..s2
            };
            lemma_run_append(s2, body, tail);
            assert forall|i: int| 0 <= i < rest.len() implies wf_case(#[trigger] rest[i]) by {
                assert(rest[i] == cs[i + 1]);
            }
            lemma_cases_tail(rest, s3, c0, m0n, d);
            assert(cases_seq(m0n.cases).push(c0) + rest =~= cs);
        },
    }
}

/// The commands of a `CASE` block after its `CASE` command finish the case.
proof fn lemma_case_body(c: CaseModel, s: BuildState, mc: MatchModel)
    requires
        wf_case(c),
        frame_ok(s),
        s.status == Status::CASE,
        s.current_case == Some(new_case_model(c.case)),
        s.current_match == Some(mc),
    ensures
        run_commands(s, case_commands(c).drop_first()) == BuildStep::Next(
            BuildState {
                status: Status::CASEANSWER,
                current_case: Some(c),
                current_match: Some(after_case(c, mc)),
                ..s
            },
        ),
    decreases c,
{
    let c1 = CaseModel { response: c.response, ..new_case_model(c.case) };
    let s1 = BuildState { status: Status::CASEANSWER, current_case: Some(c1), ..s };
    assert(build_step(s, CommandModel::Response(c.response)) == BuildStep::Next(s1));
    match c.matches {
        None => {
            assert(case_commands(c).drop_first() =~= seq![CommandModel::Response(c.response)]
                + Seq::<CommandModel>::empty());
            lemma_run_one(s, CommandModel::Response(c.response), Seq::empty());
            assert(c1 == c);
        },
        Some(ms) => {
            let inner = match_list_commands(ms);
            let closing = seq![CommandModel::End];
            assert(case_commands(c).drop_first() =~= seq![CommandModel::Response(c.response)] + (
            seq![CommandModel::Start] + (inner + closing)));
            lemma_run_one(
                s,
                CommandModel::Response(c.response),
                seq![CommandModel::Start] + (inner + closing),
            );
            let pushed = MatchModel { cases: add_case(mc.cases, c1), ..mc };
            let t = BuildState {
                stack: s.stack.push(pushed),
                current_match: None,
                current_case: None,
                status: Status::START,
                nest: s.nest + 1,
                ..s1
            };
            assert(build_step(s1, CommandModel::Start) == BuildStep::Next(t));
            lemma_run_one(s1, CommandModel::Start, inner + closing);
            assert(t.stack.last() == pushed);
            assert(frame_ok(t));
            assert(decreases_to!(c => c.matches));
            assert(decreases_to!(c.matches => ms));
            lemma_list(ms, t);
            let u = BuildState {
                status: answered(ms.last()),
                current_match: Some(ms.last()),
                ..deposit(t, ms.drop_last())
            };
            lemma_run_append(t, inner, closing);
            lemma_run_one(u, CommandModel::End, Seq::empty());
            let cs_p = cases_seq(mc.cases).push(c1);
            assert(pushed.cases == Some(cs_p));
            let c1d = CaseModel { matches: append_matches(None, ms.drop_last()), ..c1 };
            let top2 = MatchModel { cases: Some(cs_p.drop_last().push(c1d)), ..pushed };
            assert(u.stack == s.stack.push(pushed).drop_last().push(top2));
            assert(s.stack.push(pushed).drop_last() =~= s.stack);
            assert(u.stack.last() == top2);
            assert(u.stack.drop_last() =~= s.stack);
            assert(cs_p.drop_last().push(c1d).last() == c1d);
            assert(cs_p.drop_last().push(c1d).drop_last() =~= cases_seq(mc.cases));
            lemma_append_last(ms);
            assert(CaseModel { matches: Some(ms), ..c1 } == c);
        },
    }
}

/// A list of `MATCH` blocks after `START` builds them all, the last one still
/// in progress.
proof fn lemma_list(ms: Seq<MatchModel>, t: BuildState)
    requires
        ms.len() > 0,
        forall|i: int| 0 <= i < ms.len() ==> wf_match(#[trigger] ms[i]),
        frame_ok(t),
        t.status == Status::START,
        t.current_match is None,
        t.current_case is None,
    ensures
        run_commands(t, match_list_commands(ms)) == BuildStep::Next(
            BuildState {
                status: answered(ms.last()),
                current_match: Some(ms.last()),
                ..deposit(t, ms.drop_last())
            },
        ),
    decreases ms,
{
    let m0 = ms[0];
    let rest = ms.drop_first();
    assert(match_list_commands(ms) == match_commands(m0) + match_list_commands(rest));
    let body = match_commands(m0).drop_first();
    assert(match_commands(m0) =~= seq![CommandModel::Match(m0.mtch)] + body);
    let t1 = BuildState {
        status: Status::MATCH,
        current_match: Some(new_match_model(m0.mtch)),
        ..t
    };
    assert(build_step(t, CommandModel::Match(m0.mtch)) == BuildStep::Next(t1));
    lemma_run_append(t, match_commands(m0), match_list_commands(rest));
    lemma_run_one(t, CommandModel::Match(m0.mtch), body);
    assert(decreases_to!(ms => ms[0]));
    assert(rest == ms.subrange(1, ms.len() as int));
    assert(decreases_to!(ms => rest));
    assert(wf_match(m0));
    lemma_item_body(m0, t1);
    let t2 = BuildState { status: answered(m0), current_match: Some(m0), ..t1 };
    assert forall|i: int| 0 <= i < rest.len() implies wf_match(#[trigger] rest[i]) by {
        assert(rest[i] == ms[i + 1]);
    }
    lemma_list_tail(rest, t2, m0);
    assert(seq![m0] + rest =~= ms);
    let all = seq![m0] + rest;
    assert(deposit(t2, all.drop_last()) == BuildState {
        status: answered(m0),
        current_match: Some(m0),
        ..deposit(t, all.drop_last())
    });
}

/// Further `MATCH` blocks, after one is built, file the earlier ones.
proof fn lemma_list_tail(ms: Seq<MatchModel>, s: BuildState, mp: MatchModel)
    requires
        forall|i: int| 0 <= i < ms.len() ==> wf_match(#[trigger] ms[i]),
        frame_ok(s),
        s.status == answered(mp),
        s.current_match == Some(mp),
        s.current_case is None,
    ensures
        run_commands(s, match_list_commands(ms)) == BuildStep::Next(
            BuildState {
                status: answered((seq![mp] + ms).last()),
                current_match: Some((seq![mp] + ms).last()),
                ..deposit(s, (seq![mp] + ms).drop_last())
            },
        ),
    decreases ms,
{
    let all = seq![mp] + ms;
    if ms.len() == 0 {
        lemma_deposit_empty(s);
        assert(all.drop_last() =~= Seq::<MatchModel>::empty());
        assert(all.last() == mp);
        assert(match_list_commands(ms) =~= Seq::<CommandModel>::empty());
    } else {
        let m0 = ms[0];
        let rest = ms.drop_first();
        assert(match_list_commands(ms) == match_commands(m0) + match_list_commands(rest));
        let body = match_commands(m0).drop_first();
        assert(match_commands(m0) =~= seq![CommandModel::Match(m0.mtch)] + body);
        lemma_file_one(s, mp);
        lemma_deposit_compose(s, seq![mp], Seq::empty());
        let d1 = deposit(s, seq![mp]);
        let s1 = BuildState {
            status: Status::MATCH,
            current_match: Some(new_match_model(m0.mtch)),
            ..d1
        };
        assert(build_step(s, CommandModel::Match(m0.mtch)) == BuildStep::Next(s1));
        lemma_run_append(s, match_commands(m0), match_list_commands(rest));
        lemma_run_one(s, CommandModel::Match(m0.mtch), body);
        assert(decreases_to!(ms => ms[0]));
        assert(rest == ms.subrange(1, ms.len() as int));
        assert(decreases_to!(ms => rest));
        assert(wf_match(m0));
        lemma_item_body(m0, s1);
        let s2 = BuildState { status: answered(m0), current_match: Some(m0), ..s1 };
        assert forall|i: int| 0 <= i < rest.len() implies wf_match(#[trigger] rest[i]) by {
            assert(rest[i] == ms[i + 1]);
        }
        lemma_list_tail(rest, s2, m0);
        let all2 = seq![m0] + rest;
        assert(all2 =~= ms);
        lemma_deposit_compose(s, seq![mp], all2.drop_last());
        assert(seq![mp] + all2.drop_last() =~= all.drop_last());
        assert(all2.last() == all.last());
        assert(deposit(s2, all2.drop_last()) == BuildState {
            status: answered(m0),
            current_match: Some(m0),
            ..deposit(d1, all2.drop_last())
        });
    }
}

/// Further cases, then the default, finish the list of cases.
proof fn lemma_cases_tail(
    cs: Seq<CaseModel>,
    s: BuildState,
    cp: CaseModel,
    mc: MatchModel,
    d: Seq<char>,
)
    requires
        forall|i: int| 0 <= i < cs.len() ==> wf_case(#[trigger] cs[i]),
        frame_ok(s),
        s.status == Status::CASEANSWER,
        s.current_case == Some(cp),
        s.current_match == Some(mc),
    ensures
        run_commands(
            s,
            case_list_commands(cs) + seq![CommandModel::Default, CommandModel::Response(d)],
        ) == BuildStep::Next(
            BuildState {
                status: Status::DEFAULTANSWER,
                current_case: None,
                current_match: Some(
                    MatchModel {
                        cases: Some(cases_seq(mc.cases).push(cp) + cs),
                        default: Some(d),
                        ..mc
                    },
                ),
                ..s
            },
        ),
    decreases cs,
{
    let closing = seq![CommandModel::Default, CommandModel::Response(d)];
    let mc1 = MatchModel { cases: add_case(mc.cases, cp), ..mc };
    assert(add_case(mc.cases, cp) == Some(cases_seq(mc.cases).push(cp))) by {
        if mc.cases is None {
            assert(seq![cp] =~= Seq::<CaseModel>::empty().push(cp));
        }
    }
    if cs.len() == 0 {
        assert(case_list_commands(cs) + closing =~= seq![CommandModel::Default] + seq![
            CommandModel::Response(d),
        ]);
        let s1 = BuildState {
            status: Status::DEFAULT,
            current_match: Some(mc1),
            current_case: None,
            ..s
        };
        assert(build_step(s, CommandModel::Default) == BuildStep::Next(s1));
        lemma_run_one(s, CommandModel::Default, seq![CommandModel::Response(d)]);
        assert(seq![CommandModel::Response(d)] =~= seq![CommandModel::Response(d)]
            + Seq::<CommandModel>::empty());
        lemma_run_one(s1, CommandModel::Response(d), Seq::empty());
        assert(cases_seq(mc.cases).push(cp) + cs =~= cases_seq(mc.cases).push(cp));
    } else {
        let c0 = cs[0];
        let rest = cs.drop_first();
        assert(case_list_commands(cs) == case_commands(c0) + case_list_commands(rest));
        let body = case_commands(c0).drop_first();
        assert(case_commands(c0) =~= seq![CommandModel::Case(c0.case)] + body);
        let tail = case_list_commands(rest) + closing;
        assert(case_list_commands(cs) + closing =~= seq![CommandModel::Case(c0.case)] + (body
            + tail));
        let s1 = BuildState {
            status: Status::CASE,
            current_match: Some(mc1),
            current_case: Some(new_case_model(c0.case)),
            ..s
        };
        assert(build_step(s, CommandModel::Case(c0.case)) == BuildStep::Next(s1));
        lemma_run_one(s, CommandModel::Case(c0.case), body + tail);
        lemma_run_append(s1, body, tail);
        assert(decreases_to!(cs => cs[0]));
        assert(rest == cs.subrange(1, cs.len() as int));
        assert(decreases_to!(cs => rest));
        assert(wf_case(c0));
        lemma_case_body(c0, s1, mc1);
        let mc2 = after_case(c0, mc1);
        let s2 = BuildState {
            status: Status::CASEANSWER,
            current_case: Some(c0),
            current_match: Some(mc2),
            ..s1
        };
        assert forall|i: int| 0 <= i < rest.len() implies wf_case(#[trigger] rest[i]) by {
            assert(rest[i] == cs[i + 1]);
        }
        lemma_cases_tail(rest, s2, c0, mc2, d);
        assert(cases_seq(mc2.cases) == cases_seq(mc.cases).push(cp));
        assert(cases_seq(mc2.cases).push(c0) + rest =~= cases_seq(mc.cases).push(cp) + cs);
    }
}


/// A script written in the language's form reads back as the structure it
/// writes down, whatever follows its closing `END`: every well-formed block
/// structure is what reading its script gives.
pub proof fn law_script_reads_back(b: BlockModel, rest: Seq<CommandModel>)
    requires
        wf_block(b),
    ensures
        script_blocks(script_commands(b) + rest) == Some(Ok::<BlockModel, Seq<char>>(b)),
{
    let ms = b.matches;
    let inner = match_list_commands(ms);
    let closing = seq![
        CommandModel::Unknown,
        CommandModel::Response(b.unknowing),
        CommandModel::End,
    ];
    let init = initial_state();
    assert(script_commands(b) + rest =~= seq![CommandModel::Start] + (inner + (closing + rest)));
    let s1 = BuildState { status: Status::START, nest: 1, ..init };
    assert(build_step(init, CommandModel::Start) == BuildStep::Next(s1));
    lemma_run_one(init, CommandModel::Start, inner + (closing + rest));
    lemma_list(ms, s1);
    let last = ms.last();
    let s2 = BuildState {
        status: answered(last),
        current_match: Some(last),
        ..deposit(s1, ms.drop_last())
    };
    lemma_run_append(s1, inner, closing + rest);
    assert(s2.matches == ms.drop_last());
    let s3 = BuildState {
        matches: ms,
        current_match: None,
        status: Status::UNKNOWN,
        unknowing: Some(Seq::empty()),
        ..s2
    };
    assert(ms.drop_last().push(last) =~= ms);
    assert(build_step(s2, CommandModel::Unknown) == BuildStep::Next(s3));
    assert(closing + rest =~= seq![CommandModel::Unknown] + (seq![
        CommandModel::Response(b.unknowing),
    ] + (seq![CommandModel::End] + rest)));
    lemma_run_one(
        s2,
        CommandModel::Unknown,
        seq![CommandModel::Response(b.unknowing)] + (seq![CommandModel::End] + rest),
    );
    let s4 = BuildState { status: Status::UNKNOWNANSWER, unknowing: Some(b.unknowing), ..s3 };
    assert(build_step(s3, CommandModel::Response(b.unknowing)) == BuildStep::Next(s4));
    lemma_run_one(s3, CommandModel::Response(b.unknowing), seq![CommandModel::End] + rest);
    lemma_run_one(s4, CommandModel::End, rest);
    assert(build_step(s4, CommandModel::End) == BuildStep::Done(
        Ok::<BlockModel, Seq<char>>(BlockModel { matches: ms, unknowing: b.unknowing }),
    ));
}


proof fn lemma_ok_ends_on_end(s: BuildState, cmds: Seq<CommandModel>, b: BlockModel)
    requires
        run_commands(s, cmds) == BuildStep::Done(Ok::<BlockModel, Seq<char>>(b)),
    ensures
        b.matches.len() > 0,
        exists|k: int| 0 <= k < cmds.len() && cmds[k] == CommandModel::End,
    decreases cmds.len(),
{
    if cmds.len() == 0 {
    } else {
        match build_step(s, cmds[0]) {
            BuildStep::Next(s2) => {
                lemma_ok_ends_on_end(s2, cmds.drop_first(), b);
                let k = choose|k: int| 0 <= k < cmds.drop_first().len() && cmds.drop_first()[k]
                    == CommandModel::End;
                assert(cmds[k + 1] == CommandModel::End);
            },
            _ => {
                assert(cmds[0] == CommandModel::End);
            },
        }
    }
}

/// A script that reads into a block structure opens with `START`, holds an
/// `END`, and has at least one `MATCH` block.
pub proof fn law_read_script_is_framed(cmds: Seq<CommandModel>, b: BlockModel)
    requires
        script_blocks(cmds) == Some(Ok::<BlockModel, Seq<char>>(b)),
    ensures
        cmds.len() > 0,
        cmds[0] == CommandModel::Start,
        exists|k: int| 0 <= k < cmds.len() && cmds[k] == CommandModel::End,
        b.matches.len() > 0,
{
    assert(run_commands(initial_state(), cmds) == BuildStep::Done(
        Ok::<BlockModel, Seq<char>>(b),
    ));
    lemma_ok_ends_on_end(initial_state(), cmds, b);
}


spec fn unknowing_consistent(s: BuildState) -> bool {
    ||| s.unknowing is None && s.status != Status::UNKNOWN && s.status != Status::UNKNOWNANSWER
    ||| s.unknowing is Some && (s.status == Status::UNKNOWN || s.status == Status::UNKNOWNANSWER)
}

proof fn lemma_unknowing_reply(s: BuildState, cmds: Seq<CommandModel>, b: BlockModel)
    requires
        unknowing_consistent(s),
        run_commands(s, cmds) == BuildStep::Done(Ok::<BlockModel, Seq<char>>(b)),
    ensures
        s.status == Status::UNKNOWNANSWER ==> s.unknowing == Some(b.unknowing),
        s.status == Status::UNKNOWN ==> cmds.len() > 0 && cmds[0] == CommandModel::Response(
            b.unknowing,
        ),
        s.unknowing is None ==> exists|k: int|
            0 <= k && k + 1 < cmds.len() && #[trigger] cmds[k] == CommandModel::Unknown && cmds[k
                + 1] == CommandModel::Response(b.unknowing),
    decreases cmds.len(),
{
    if cmds.len() > 0 {
        match build_step(s, cmds[0]) {
            BuildStep::Next(s2) => {
                let rest = cmds.drop_first();
                lemma_unknowing_reply(s2, rest, b);
                if s.unknowing is None {
                    if s2.status == Status::UNKNOWN {
                        assert(cmds[0] == CommandModel::Unknown);
                        assert(cmds[1] == rest[0]);
                    } else {
                        let k = choose|k: int|
                            0 <= k && k + 1 < rest.len() && #[trigger] rest[k]
                                == CommandModel::Unknown && rest[k + 1] == CommandModel::Response(
                                b.unknowing,
                            );
                        assert(cmds[k + 1] == rest[k] && cmds[k + 2] == rest[k + 1]);
                    }
                }
            },
            _ => {},
        }
    }
}

/// The reply for no match of a script that reads well is the reply that its
/// `UNKNOWN` command is followed by.
pub proof fn law_unknowing_is_the_unknown_reply(cmds: Seq<CommandModel>, b: BlockModel)
    requires
        script_blocks(cmds) == Some(Ok::<BlockModel, Seq<char>>(b)),
    ensures
        exists|k: int|
            0 <= k && k + 1 < cmds.len() && #[trigger] cmds[k] == CommandModel::Unknown && cmds[k
                + 1] == CommandModel::Response(b.unknowing),
{
    lemma_unknowing_reply(initial_state(), cmds, b);
}


/// Reading ends at the command that ends it: once the commands read so far
/// have given a result or aborted, what follows them is never read.
pub proof fn law_reading_ignores_what_follows(cmds: Seq<CommandModel>, rest: Seq<CommandModel>)
    requires
        !(run_commands(initial_state(), cmds) is Next),
    ensures
        script_blocks(cmds + rest) == script_blocks(cmds),
{
    lemma_run_append(initial_state(), cmds, rest);
}


/// A `MATCH` block still being read: no default yet, and every case it has
/// so far is well formed.
spec fn partial_match(m: MatchModel) -> bool {
    &&& m.default is None
    &&& match m.cases {
        Some(cs) => forall|i: int| 0 <= i < cs.len() ==> wf_case(#[trigger] cs[i]),
        None => true,
    }
}

/// A `MATCH` block on the stack: being read, with the open case last.
spec fn open_match(m: MatchModel) -> bool {
    &&& partial_match(m)
    &&& m.cases is Some
    &&& m.cases->0.len() > 0
}

/// What holds of every state the reader reaches from its initial state.
spec fn reader_inv(s: BuildState) -> bool {
    &&& if s.status == Status::INITIAL {
        s.nest == 0 && s.stack.len() == 0
    } else {
        s.nest >= 1 && s.stack.len() == s.nest - 1
    }
    &&& forall|i: int| 0 <= i < s.stack.len() ==> open_match(#[trigger] s.stack[i])
    &&& forall|i: int| 0 <= i < s.matches.len() ==> wf_match(#[trigger] s.matches[i])
    &&& match s.status {
        Status::MATCH | Status::MATCHANSWER => {
            &&& s.current_match is Some
            &&& wf_match(s.current_match->0)
            &&& s.current_match->0.cases is None
        },
        Status::CASE | Status::CASEANSWER => {
            &&& s.current_match is Some
            &&& partial_match(s.current_match->0)
            &&& s.current_case is Some
            &&& wf_case(s.current_case->0)
        },
        Status::DEFAULT => {
            &&& s.current_match is Some
            &&& partial_match(s.current_match->0)
            &&& s.current_match->0.cases is Some
            &&& s.current_match->0.cases->0.len() > 0
        },
        Status::DEFAULTANSWER => {
            &&& s.current_match is Some
            &&& wf_match(s.current_match->0)
            &&& s.current_match->0.cases is Some
        },
        Status::UNKNOWN | Status::UNKNOWNANSWER => s.unknowing is Some,
        _ => true,
    }
}

proof fn lemma_wf_cases_push(cs: Seq<CaseModel>, c: CaseModel)
    requires
        forall|i: int| 0 <= i < cs.len() ==> wf_case(#[trigger] cs[i]),
        wf_case(c),
    ensures
        forall|i: int| 0 <= i < cs.push(c).len() ==> wf_case(#[trigger] cs.push(c)[i]),
{
    assert forall|i: int| 0 <= i < cs.push(c).len() implies wf_case(#[trigger] cs.push(c)[i]) by {
        if i < cs.len() {
            assert(cs.push(c)[i] == cs[i]);
        }
    }
}

proof fn lemma_wf_matches_push(ms: Seq<MatchModel>, m: MatchModel)
    requires
        forall|i: int| 0 <= i < ms.len() ==> wf_match(#[trigger] ms[i]),
        wf_match(m),
    ensures
        forall|i: int| 0 <= i < ms.push(m).len() ==> wf_match(#[trigger] ms.push(m)[i]),
{
    assert forall|i: int| 0 <= i < ms.push(m).len() implies wf_match(#[trigger] ms.push(m)[i]) by {
        if i < ms.len() {
            assert(ms.push(m)[i] == ms[i]);
        }
    }
}

/// A partial block with a well-formed case added.
proof fn lemma_add_case(m: MatchModel, c: CaseModel)
    requires
        partial_match(m),
        wf_case(c),
    ensures
        open_match(MatchModel { cases: add_case(m.cases, c), ..m }),
{
    match m.cases {
        Some(cs) => lemma_wf_cases_push(cs, c),
        None => {
            assert(seq![c][0] == c);
        },
    }
}

/// A well-formed case with a well-formed nested block added.
proof fn lemma_add_match(c: CaseModel, m: MatchModel)
    requires
        wf_case(c),
        wf_match(m),
    ensures
        wf_case(CaseModel { matches: add_match(c.matches, m), ..c }),
{
    match c.matches {
        Some(ms) => lemma_wf_matches_push(ms, m),
        None => {
            assert(seq![m][0] == m);
        },
    }
}

proof fn lemma_stack_replace_last(stack: Seq<MatchModel>, top: MatchModel)
    requires
        stack.len() > 0,
        forall|i: int| 0 <= i < stack.len() ==> open_match(#[trigger] stack[i]),
        open_match(top),
    ensures
        forall|i: int|
            0 <= i < stack.drop_last().push(top).len() ==> open_match(
                #[trigger] stack.drop_last().push(top)[i],
            ),
        forall|i: int|
            0 <= i < stack.drop_last().len() ==> open_match(#[trigger] stack.drop_last()[i]),
{
    assert forall|i: int| 0 <= i < stack.drop_last().len() implies open_match(
        #[trigger] stack.drop_last()[i],
    ) by {
        assert(stack.drop_last()[i] == stack[i]);
    }
    assert forall|i: int| 0 <= i < stack.drop_last().push(top).len() implies open_match(
        #[trigger] stack.drop_last().push(top)[i],
    ) by {
        if i < stack.len() - 1 {
            assert(stack.drop_last().push(top)[i] == stack[i]);
        }
    }
}

proof fn lemma_stack_push(stack: Seq<MatchModel>, top: MatchModel)
    requires
        forall|i: int| 0 <= i < stack.len() ==> open_match(#[trigger] stack[i]),
        open_match(top),
    ensures
        forall|i: int| 0 <= i < stack.push(top).len() ==> open_match(#[trigger] stack.push(top)[i]),
{
    assert forall|i: int| 0 <= i < stack.push(top).len() implies open_match(
        #[trigger] stack.push(top)[i],
    ) by {
        if i < stack.len() {
            assert(stack.push(top)[i] == stack[i]);
        }
    }
}

/// One command from a reachable state: the reader does not abort, goes on
/// in a reachable state, and ends only with a well-formed block structure.
proof fn lemma_step_inv(s: BuildState, cmd: CommandModel)
    requires
        reader_inv(s),
    ensures
        !(build_step(s, cmd) is Abort),
        build_step(s, cmd) matches BuildStep::Next(s2) ==> reader_inv(s2),
        build_step(s, cmd) matches BuildStep::Done(Ok(b)) ==> wf_block(b),
{
    match cmd {
        CommandModel::Start => {
            if s.status == Status::CASEANSWER {
                let m = s.current_match->0;
                let c = s.current_case->0;
                lemma_add_case(m, c);
                lemma_stack_push(s.stack, MatchModel { cases: add_case(m.cases, c), ..m });
            }
        },
        CommandModel::Match(p) => {
            if s.status == Status::MATCHANSWER || s.status == Status::DEFAULTANSWER {
                let m = s.current_match->0;
                if s.nest > 1 {
                    let top = s.stack.last();
                    assert(open_match(top));
                    let cs = top.cases->0;
                    let last = cs.last();
                    assert(wf_case(last));
                    lemma_add_match(last, m);
                    let last2 = CaseModel { matches: add_match(last.matches, m), ..last };
                    assert forall|i: int| 0 <= i < cs.drop_last().len() implies wf_case(
                        #[trigger] cs.drop_last()[i],
                    ) by {
                        assert(cs.drop_last()[i] == cs[i]);
                    }
                    lemma_wf_cases_push(cs.drop_last(), last2);
                    let top2 = MatchModel { cases: Some(cs.drop_last().push(last2)), ..top };
                    lemma_stack_replace_last(s.stack, top2);
                } else {
                    lemma_wf_matches_push(s.matches, m);
                }
            }
        },
        CommandModel::Case(p) => {
            if s.status == Status::CASEANSWER {
                let m = s.current_match->0;
                let c = s.current_case->0;
                lemma_add_case(m, c);
            }
        },
        CommandModel::Response(r) => {
            if s.status == Status::DEFAULT {
                let m = s.current_match->0;
                let m2 = MatchModel { default: Some(r), ..m };
                assert(wf_match(m2));
            }
        },
        CommandModel::End => {
            if s.nest > 1 && (s.status == Status::MATCHANSWER || s.status == Status::DEFAULTANSWER) {
                let m = s.current_match->0;
                let tem = s.stack.last();
                assert(open_match(tem));
                let cs = tem.cases->0;
                let c = cs.last();
                assert(wf_case(c));
                lemma_add_match(c, m);
                assert forall|i: int| 0 <= i < cs.drop_last().len() implies wf_case(
                    #[trigger] cs.drop_last()[i],
                ) by {
                    assert(cs.drop_last()[i] == cs[i]);
                }
                lemma_stack_replace_last(s.stack, tem);
            }
        },
        CommandModel::Unknown => {
            if s.status == Status::MATCHANSWER || s.status == Status::DEFAULTANSWER {
                lemma_wf_matches_push(s.matches, s.current_match->0);
            }
        },
        CommandModel::Default => {
            if s.status == Status::CASEANSWER {
                let m = s.current_match->0;
                let c = s.current_case->0;
                lemma_add_case(m, c);
            }
        },
    }
}


proof fn lemma_run_inv(s: BuildState, cmds: Seq<CommandModel>)
    requires
        reader_inv(s),
    ensures
        !(run_commands(s, cmds) is Abort),
        run_commands(s, cmds) matches BuildStep::Done(Ok(b)) ==> wf_block(b),
    decreases cmds.len(),
{
    if cmds.len() > 0 {
        lemma_step_inv(s, cmds[0]);
        match build_step(s, cmds[0]) {
            BuildStep::Next(s2) => lemma_run_inv(s2, cmds.drop_first()),
            _ => {},
        }
    }
}

/// Reading never aborts: every sequence of commands reads into a block
/// structure or into an error.
pub proof fn law_reading_never_aborts(cmds: Seq<CommandModel>)
    ensures
        script_blocks(cmds) is Some,
{
    lemma_run_inv(initial_state(), cmds);
}

/// Every block structure that reading gives is well formed: it has a `MATCH`
/// block, every block has cases exactly when it has a default, and no list of
/// cases or of nested blocks is empty.
pub proof fn law_read_blocks_are_well_formed(cmds: Seq<CommandModel>, b: BlockModel)
    requires
        script_blocks(cmds) == Some(Ok::<BlockModel, Seq<char>>(b)),
    ensures
        wf_block(b),
{
    lemma_run_inv(initial_state(), cmds);
}

} // verus!
