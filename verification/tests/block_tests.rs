use chatbot_dsl::block::{
    clone_case, clone_match, parse_commands_to_blocks, Block,
    CaseBlock, MatchBlock, UnknowingBlock,
};
use chatbot_dsl::command::{parse_lines_to_cmds, Command};

const SCRIPT: &str = r#"START
  MATCH "我需要帮助"
  RESPONSE "当然，我很乐意帮助你。你遇到什么问题了呢？"

  MATCH "我的订单状态是什么"
  RESPONSE "让我为你查询。请你提供下订单号。"

  CASE "我的订单号是12345"
  RESPONSE "已查询到该地址，请问需要什么服务？"
    START
      MATCH "我想改变配送地址"
      RESPONSE "好的，你想更改为哪个地址？"
      CASE "我想改为100号大街"
      RESPONSE "你的配送地址已经更改为100号大街。"
      DEFAULT
      RESPONSE "对不起，这个地址我们无法配送。"
    END

  DEFAULT
  RESPONSE "对不起，我无法查询到你提供的订单信息，请检查订单号是否正确。"

  MATCH "我无法登录我的账户"
  RESPONSE "抱歉给您带来不便。你是否忘记了密码，或被告知你的账户被冻结了?"

  UNKNOWN
  RESPONSE "抱歉，我不明白你的问题。能否请你再详细描述一下？"
END
"#;

const NESTED_SCRIPT: &str = r#"START
  MATCH "我这里有些问题"
  RESPONSE "您有什么问题呢"

  MATCH "我买的衣服大了一号"
  RESPONSE "请问您有没有撕牌？"

  CASE "还没撕"
  RESPONSE "那衣服有没有破损呢？"
    START
      MATCH "没有破损"
      RESPONSE "那可以退换货，请问您想要大一码的还是想直接退货呢？"

        CASE "直接退货"
        RESPONSE "好的，等我们收到衣服，钱将原路返回"

        CASE "换一个大的"
        RESPONSE "好的，请问款式和收货地址还是原来的吗？"
            START
                MATCH "对的，不变"
                RESPONSE "好的，您已提交换货申请"
            END

        DEFAULT
        RESPONSE "对不起，这个地址我们无法配送。"

      MATCH "让我弄破了一点"
      RESPONSE "弄破了就不能退换货了"
    END

  CASE "已经撕了"
  RESPONSE "那您不可以退了哦"

DEFAULT
RESPONSE "听不懂您在讲什么"

  MATCH "你们的衣服质量有问题"
  RESPONSE "没啥问题"

  UNKNOWN
  RESPONSE "抱歉，我不明白你的问题。能否请你再详细描述一下？"
END
"#;

fn commands_of(text: &str) -> Vec<Command> {
    let lines: Vec<String> = text.lines().map(|l| l.to_string()).collect();
    parse_lines_to_cmds(&lines)
}

fn s(x: &str) -> String {
    x.to_string()
}

fn m(pattern: &str) -> Command {
    Command::MATCH(s(pattern))
}

fn r(reply: &str) -> Command {
    Command::RESPONSE(s(reply))
}

fn c(pattern: &str) -> Command {
    Command::CASE(s(pattern))
}

#[test]
fn test_parse_commands_to_blocks() {
    let cmd_vec = commands_of(SCRIPT);
    let m_block = match parse_commands_to_blocks(cmd_vec) {
        Ok(block) => block,
        Err(error) => panic!("error: {}", error),
    };
    let m_str = format!("{:?}", m_block.clone());
    let answer_str = r#"Block { matches: [MatchBlock { mtch: "我需要帮助", response: "当然，我很乐意帮助你。你遇到什么问题了呢？", cases: None, default: None }, MatchBlock { mtch: "我的订单状态是什么", response: "让我为你查询。请你提供下订单号。", cases: Some([CaseBlock { case: "我的订单号是12345", response: "已查询到该地址，请问需要什么服务？", matches: Some([MatchBlock { mtch: "我想改变配送地址", response: "好的，你想更改为哪个地址？", cases: Some([CaseBlock { case: "我想改为100号大街", response: "你的配送地址已经更改为100号大街。", matches: None }]), default: Some("对不起，这个地址我们无法配送。") }]) }]), default: Some("对不起，我无法查询到你提供的订单信息，请检查订单号是否正确。") }, MatchBlock { mtch: "我无法登录我的账户", response: "抱歉给您带来不便。你是否忘记了密码，或被告知你的账户被冻结了?", cases: None, default: None }], unknowing: UnknowingBlock { response: "抱歉，我不明白你的问题。能否请你再详细描述一下？" } }"#;
    assert_eq!(m_str, answer_str);
}

#[test]
fn nested_script_builds_its_tree() {
    let block = parse_commands_to_blocks(commands_of(NESTED_SCRIPT)).unwrap();
    assert_eq!(block.matches.len(), 3);
    let second = &block.matches[1];
    assert_eq!(second.default, Some(s("听不懂您在讲什么")));
    let cases = second.cases.as_ref().unwrap();
    assert_eq!(cases.len(), 2);
    assert_eq!(cases[1].case, "已经撕了");
    assert_eq!(cases[1].matches, None);
    let inner = cases[0].matches.as_ref().unwrap();
    assert_eq!(inner.len(), 2);
    assert_eq!(inner[0].mtch, "没有破损");
    assert_eq!(inner[1].mtch, "让我弄破了一点");
    assert_eq!(inner[1].cases, None);
    let inner_cases = inner[0].cases.as_ref().unwrap();
    assert_eq!(inner_cases.len(), 2);
    assert_eq!(inner_cases[0].matches, None);
    let deepest = inner_cases[1].matches.as_ref().unwrap();
    assert_eq!(deepest.len(), 1);
    assert_eq!(deepest[0].response, "好的，您已提交换货申请");
    assert_eq!(inner[0].default, Some(s("对不起，这个地址我们无法配送。")));
    assert_eq!(block.unknowing.response, "抱歉，我不明白你的问题。能否请你再详细描述一下？");
}

#[test]
fn reading_stops_at_the_closing_end() {
    let cmds = vec![
        Command::START, m("a"), r("ra"), Command::UNKNOWN, r("?"), Command::END, Command::END,
        Command::START,
    ];
    let block = parse_commands_to_blocks(cmds).unwrap();
    assert_eq!(
        block,
        Block {
            matches: vec![MatchBlock { mtch: s("a"), response: s("ra"), cases: None, default: None }],
            unknowing: UnknowingBlock { response: s("?") },
        }
    );
}

#[test]
fn each_error_comes_from_its_state() {
    let cases: Vec<(Vec<Command>, &str)> = vec![
        (vec![m("a")], "接受Command::MATCH处于错误的状态"),
        (vec![Command::START, m("a"), r("b"), c("x"), m("b")], "接受Command::MATCH处于错误的状态"),
        (
            vec![Command::START, m("a"), m("b"), r("r"), Command::UNKNOWN, r("u"), Command::END],
            "接受Command::MATCH处于错误的状态",
        ),
        (vec![Command::START, Command::START], "bad status try to trans to START"),
        (vec![Command::START, m("a"), Command::START], "bad status try to trans to START"),
        (vec![Command::DEFAULT], "bad cmd on DEFAULT"),
        (vec![Command::START, m("a"), r("b"), Command::DEFAULT], "bad cmd on DEFAULT"),
        (
            vec![
                Command::START, m("a"), r("r"), Command::DEFAULT, r("d"), Command::UNKNOWN, r("u"),
                Command::END,
            ],
            "bad cmd on DEFAULT",
        ),
        (vec![Command::START, c("x")], "bad status try to trans to CASE"),
        (vec![Command::START, r("x")], "answer state wrong"),
        (vec![Command::START, m("a"), r("b"), r("c")], "answer state wrong"),
        (vec![Command::START, m("a"), r("b"), Command::END], "Invalid command sequence"),
        (vec![Command::START, Command::END], "nest_level == 1, end state wrong"),
        (vec![Command::START, Command::UNKNOWN], "nest_level == 1, end state wrong"),
        (vec![Command::END], "nest_level < 1, end state wrong"),
        (
            vec![Command::START, m("a"), r("b"), c("x"), r("y"), Command::START, Command::END],
            "nest_level > 1, end state wrong",
        ),
        (vec![Command::START, m("a"), r("b")], "Unexpected Default command"),
        (vec![], "Unexpected Default command"),
    ];
    for (cmds, msg) in cases {
        assert_eq!(parse_commands_to_blocks(cmds).unwrap_err(), msg);
    }
}

#[test]
fn unknown_at_a_nested_level_never_ends_well() {
    let cmds = vec![
        Command::START, m("a"), r("b"), c("x"), r("y"), Command::START, m("n"), r("o"),
        Command::UNKNOWN, r("u"), Command::END,
    ];
    assert_eq!(parse_commands_to_blocks(cmds).unwrap_err(), "nest_level > 1, end state wrong");
}

#[test]
fn clones_are_equal() {
    let block = parse_commands_to_blocks(commands_of(NESTED_SCRIPT)).unwrap();
    assert_eq!(block.clone(), block);
    for mb in block.matches.iter() {
        assert_eq!(&clone_match(mb), mb);
        assert_eq!(&mb.clone(), mb);
        if let Some(cs) = &mb.cases {
            for cb in cs.iter() {
                let copy: CaseBlock = clone_case(cb);
                assert_eq!(&copy, cb);
                assert_eq!(&cb.clone(), cb);
            }
        }
    }
}

fn render_match(mb: &MatchBlock, out: &mut Vec<Command>) {
    out.push(Command::MATCH(mb.mtch.clone()));
    out.push(Command::RESPONSE(mb.response.clone()));
    if let Some(cs) = &mb.cases {
        for cb in cs.iter() {
            out.push(Command::CASE(cb.case.clone()));
            out.push(Command::RESPONSE(cb.response.clone()));
            if let Some(ms) = &cb.matches {
                out.push(Command::START);
                for inner in ms.iter() {
                    render_match(inner, out);
                }
                out.push(Command::END);
            }
        }
        out.push(Command::DEFAULT);
        out.push(Command::RESPONSE(mb.default.clone().unwrap()));
    }
}

fn render(block: &Block) -> Vec<Command> {
    let mut out = vec![Command::START];
    for mb in block.matches.iter() {
        render_match(mb, &mut out);
    }
    out.push(Command::UNKNOWN);
    out.push(Command::RESPONSE(block.unknowing.response.clone()));
    out.push(Command::END);
    out
}

#[test]
fn written_structure_reads_back() {
    let block = parse_commands_to_blocks(commands_of(NESTED_SCRIPT)).unwrap();
    let mut cmds = render(&block);
    cmds.push(Command::DEFAULT);
    cmds.push(m("never read"));
    assert_eq!(parse_commands_to_blocks(cmds).unwrap(), block);

    let built = Block {
        matches: vec![
            MatchBlock {
                mtch: s("p"),
                response: s("q"),
                cases: Some(vec![
                    CaseBlock {
                        case: s("c1"),
                        response: s("r1"),
                        matches: Some(vec![MatchBlock { mtch: s("n"), response: s("o"), cases: None, default: None }]),
                    },
                    CaseBlock { case: s("c2"), response: s(""), matches: None },
                ]),
                default: Some(s("d")),
            },
            MatchBlock { mtch: s("z"), response: s("y"), cases: None, default: None },
        ],
        unknowing: UnknowingBlock { response: s("?") },
    };
    assert_eq!(parse_commands_to_blocks(render(&built)).unwrap(), built);
}

#[test]
fn read_scripts_open_with_start_and_keep_the_unknown_reply() {
    let cmds = commands_of(SCRIPT);
    assert_eq!(cmds[0], Command::START);
    let block = parse_commands_to_blocks(commands_of(SCRIPT)).unwrap();
    let k = cmds.iter().position(|x| *x == Command::UNKNOWN).unwrap();
    assert_eq!(cmds[k + 1], Command::RESPONSE(block.unknowing.response.clone()));
    assert!(!block.matches.is_empty());
    let mut without_start = commands_of(SCRIPT);
    without_start.remove(0);
    assert!(parse_commands_to_blocks(without_start).is_err());
}

#[test]
fn errors_ignore_what_follows() {
    let cmds = vec![Command::START, r("x"), Command::START, Command::START];
    assert_eq!(parse_commands_to_blocks(cmds).unwrap_err(), "answer state wrong");
}
