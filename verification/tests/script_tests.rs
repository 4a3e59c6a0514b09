use chatbot_dsl::block::{parse_commands_to_blocks, Block};
use chatbot_dsl::command::parse_lines_to_cmds;
use chatbot_dsl::parse::{script_parse, ParseError};
use chatbot_dsl::script::{respond, str_match, try_str_match, Dialog};

const REGEX_SCRIPT: &str = r#"START
  MATCH ".*物流.*"
  RESPONSE "暂时查询不到您的物流"

  MATCH ".*尺码.*"
  RESPONSE "请您说您的尺码，我给您推荐型号"

  CASE ".*180m140kg.*"
  RESPONSE "XL🐎"

  DEFAULT
  RESPONSE "对不起我也不知道你该穿多大的"

  MATCH ".*无法登录.*"
  RESPONSE "抱歉给您带来不便。你是否忘记了密码，或被告知你的账户被冻结了?"

  UNKNOWN
  RESPONSE "抱歉，我不明白你的问题。能否请你再详细描述一下？"
END
"#;

const NESTED_SCRIPT: &str = r#"START
  MATCH "我的订单状态是什么"
  RESPONSE "让我为你查询。请你提供下订单号。"
  CASE "我的订单号是12345"
  RESPONSE "已查询到该地址，请问需要什么服务？"
    START
      MATCH "我想改变配送地址"
      RESPONSE "好的，你想更改为哪个地址？"
      CASE "我想改为100号大街"
      RESPONSE "你的配送地址已经更改为100号大街。"
      DEFAULT
      RESPONSE "对不起，这个地址我们无法配送。"
    END
  DEFAULT
  RESPONSE "对不起，我无法查询到你提供的订单信息，请检查订单号是否正确。"
  UNKNOWN
  RESPONSE "抱歉，我不明白你的问题。"
END
"#;

fn block_of(text: &str) -> Block {
    let lines: Vec<String> = text.lines().map(|l| l.to_string()).collect();
    parse_commands_to_blocks(parse_lines_to_cmds(&lines)).unwrap()
}

fn idle() -> Dialog {
    Dialog { current_match: None, current_case: None }
}

/// Feeds the lines one after the other and collects the replies.
fn converse(block: &Block, lines: &[&str]) -> Vec<String> {
    let mut state = idle();
    let mut replies = Vec::new();
    for line in lines {
        let (next, reply) = respond(block, state, line).unwrap();
        replies.push(reply);
        state = next;
    }
    replies
}

#[test]
fn str_match_uses_trimmed_regex() {
    assert!(str_match("  我想查物流 \n", " .*物流.* "));
    assert!(!str_match("abc", "^b"));
    assert!(str_match("abc", "b"));
    assert!(str_match("  abc", "^abc$"));
    assert_eq!(try_str_match("abc", "b"), Some(true));
    assert_eq!(try_str_match("abc", "^b"), Some(false));
    assert_eq!(try_str_match("abc", "(unclosed"), None);
}

#[test]
fn top_level_match_and_unknown_reply() {
    let block = block_of(REGEX_SCRIPT);
    let replies = converse(&block, &["我的物流到哪了", "你好\n"]);
    assert_eq!(replies, vec!["暂时查询不到您的物流", "抱歉，我不明白你的问题。能否请你再详细描述一下？"]);
}

#[test]
fn case_then_default_reply() {
    let block = block_of(REGEX_SCRIPT);
    let replies = converse(&block, &["尺码怎么选", "我180m140kg", "尺码", "不知道"]);
    assert_eq!(
        replies,
        vec!["请您说您的尺码，我给您推荐型号", "XL🐎", "请您说您的尺码，我给您推荐型号", "对不起我也不知道你该穿多大的"]
    );
}

#[test]
fn case_without_nested_blocks_hands_on_to_top_level() {
    let block = block_of(REGEX_SCRIPT);
    let replies = converse(&block, &["尺码", "180m140kg", "无法登录了"]);
    assert_eq!(replies[2], "抱歉给您带来不便。你是否忘记了密码，或被告知你的账户被冻结了?");
}

#[test]
fn nested_blocks_answer_after_their_case() {
    let block = block_of(NESTED_SCRIPT);
    let replies = converse(
        &block,
        &["我的订单状态是什么", "我的订单号是12345", "我想改变配送地址", "我想改为100号大街", "我的订单状态是什么"],
    );
    assert_eq!(
        replies,
        vec![
            "让我为你查询。请你提供下订单号。",
            "已查询到该地址，请问需要什么服务？",
            "好的，你想更改为哪个地址？",
            "你的配送地址已经更改为100号大街。",
            "让我为你查询。请你提供下订单号。",
        ]
    );
    let replies = converse(&block, &["我的订单状态是什么", "我的订单号是12345", "随便说说", "我想改变配送地址"]);
    assert_eq!(replies[2], "抱歉，我不明白你的问题。");
    assert_eq!(replies[3], "抱歉，我不明白你的问题。");
}

#[test]
fn invalid_pattern_stops_the_conversation() {
    let text = "START\nMATCH \"(bad\"\nRESPONSE \"x\"\nUNKNOWN\nRESPONSE \"?\"\nEND\n";
    let block = block_of(text);
    assert!(respond(&block, idle(), "anything").is_none());
}

#[test]
fn parse_error_keeps_its_detail() {
    let e = ParseError::new("broken".to_string());
    assert_eq!(e.detail, "broken");
    match script_parse(Vec::new()) {
        Err(e) => assert_eq!(e.detail, "todo"),
        Ok(_) => panic!("script_parse accepted a script"),
    }
}

#[test]
fn surrounding_white_space_gives_the_same_reply() {
    let block = block_of(REGEX_SCRIPT);
    for line in ["尺码", "  尺码\t", "\u{3000}尺码\n"].iter() {
        let (_, reply) = respond(&block, idle(), line).unwrap();
        assert_eq!(reply, "请您说您的尺码，我给您推荐型号");
    }
}

#[test]
fn blocks_without_follow_ups_hand_on_to_the_top_level() {
    let block = block_of(REGEX_SCRIPT);
    let replies = converse(&block, &["物流", "无法登录"]);
    assert_eq!(replies[1], "抱歉给您带来不便。你是否忘记了密码，或被告知你的账户被冻结了?");
}

#[test]
fn read_script_with_valid_patterns_answers_every_line() {
    let block = block_of(NESTED_SCRIPT);
    let lines = [
        "我的订单状态是什么", "", "我的订单号是12345", "x", "我的订单状态是什么", "nope",
        "我的订单状态是什么", "我的订单号是12345", "我想改变配送地址", "？", "我想改变配送地址",
        "我想改为100号大街", "我想改为100号大街",
    ];
    let mut state = idle();
    for line in lines.iter() {
        let (next, reply) = respond(&block, state, line).expect("every line gets a reply");
        assert!(!reply.is_empty());
        state = next;
    }
}
