//! The commands that write down a block structure: the script form that
//! reading gives back as the same structure.
use vstd::prelude::*;
use crate::block::{BlockModel, CaseModel, MatchModel};
use crate::command::CommandModel;

verus! {

/// A `MATCH` block that a script can write down: cases come with a default
/// and a default with cases, and no list of cases or of nested blocks is empty.
pub open spec fn wf_match(m: MatchModel) -> bool
    decreases m,
{
    &&& (m.cases is Some <==> m.default is Some)
    &&& match m.cases {
        Some(cs) => cs.len() > 0 && forall|i: int| 0 <= i < cs.len() ==> wf_case(#[trigger] cs[i]),
        None => true,
    }
}

pub open spec fn wf_case(c: CaseModel) -> bool
    decreases c,
{
    match c.matches {
        Some(ms) => ms.len() > 0 && forall|i: int| 0 <= i < ms.len() ==> wf_match(#[trigger] ms[i]),
        None => true,
    }
}

/// A script structure that a script can write down: it has a `MATCH` block
/// and every block is written as above.
pub open spec fn wf_block(b: BlockModel) -> bool {
    &&& b.matches.len() > 0
    &&& forall|i: int| 0 <= i < b.matches.len() ==> wf_match(#[trigger] b.matches[i])
}


/// The commands of one `MATCH` block: the pattern and its reply, then its
/// cases closed by the default reply.
pub open spec fn match_commands(m: MatchModel) -> Seq<CommandModel>
    decreases m,
{
    seq![CommandModel::Match(m.mtch), CommandModel::Response(m.response)] + match m.cases {
        Some(cs) => case_list_commands(cs) + seq![
            CommandModel::Default,
            CommandModel::Response(
                match m.default {
                    Some(d) => d,
                    None => Seq::empty(),
                },
            ),
        ],
        None => Seq::empty(),
    }
}

/// The commands of a list of `MATCH` blocks, one after the other.
pub open spec fn match_list_commands(ms: Seq<MatchModel>) -> Seq<CommandModel>
    decreases ms,
{
    if ms.len() == 0 {
        Seq::empty()
    } else {
        proof {
            assert(ms.drop_first() == ms.subrange(1, ms.len() as int));
        }
        match_commands(ms[0]) + match_list_commands(ms.drop_first())
    }
}

/// The commands of one `CASE` block: the pattern and its reply, then its
/// nested blocks between `START` and `END`.
pub open spec fn case_commands(c: CaseModel) -> Seq<CommandModel>
    decreases c,
{
    seq![CommandModel::Case(c.case), CommandModel::Response(c.response)] + match c.matches {
        Some(ms) => seq![CommandModel::Start] + match_list_commands(ms) + seq![CommandModel::End],
        None => Seq::empty(),
    }
}

pub open spec fn case_list_commands(cs: Seq<CaseModel>) -> Seq<CommandModel>
    decreases cs,
{
    if cs.len() == 0 {
        Seq::empty()
    } else {
        proof {
            assert(cs.drop_first() == cs.subrange(1, cs.len() as int));
        }
        case_commands(cs[0]) + case_list_commands(cs.drop_first())
    }
}

/// The script that writes down a block structure.
pub open spec fn script_commands(b: BlockModel) -> Seq<CommandModel> {
    seq![CommandModel::Start] + match_list_commands(b.matches) + seq![
        CommandModel::Unknown,
        CommandModel::Response(b.unknowing),
        CommandModel::End,
    ]
}

} // verus!
