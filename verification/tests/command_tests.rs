use chatbot_dsl::command::{
    command_text, is_unknown_command_line, parse_line_to_cmd, parse_lines_to_cmds, Command,
};
use chatbot_dsl::text::trim;

const SCRIPT: &str = r#"START
  MATCH "我需要帮助"
  RESPONSE "当然，我很乐意帮助你。你遇到什么问题了呢？"

  MATCH "我的订单状态是什么"
  RESPONSE "让我为你查询。请你提供下订单号。"

  CASE "我的订单号是12345"
  RESPONSE "已查询到该地址，请问需要什么服务？"
    START
      MATCH "我想改变配送地址"
      RESPONSE "好的，你想更改为哪个地址？"
      CASE "我想改为100号大街"
      RESPONSE "你的配送地址已经更改为100号大街。"
      DEFAULT
      RESPONSE "对不起，这个地址我们无法配送。"
    END

  DEFAULT
  RESPONSE "对不起，我无法查询到你提供的订单信息，请检查订单号是否正确。"

  MATCH "我无法登录我的账户"
  RESPONSE "抱歉给您带来不便。你是否忘记了密码，或被告知你的账户被冻结了?"

  UNKNOWN
  RESPONSE "抱歉，我不明白你的问题。能否请你再详细描述一下？"
END
"#;

fn script_lines(text: &str) -> Vec<String> {
    text.lines().map(|l| l.to_string()).collect()
}

#[test]
fn test_parse_line_to_cmd() {
    assert_eq!(parse_line_to_cmd("START"), Some(Command::START));
    assert_eq!(parse_line_to_cmd("END"), Some(Command::END));
    assert_eq!(parse_line_to_cmd("UNKNOWN"), Some(Command::UNKNOWN));
    assert_eq!(parse_line_to_cmd("MATCH \"good\""), Some(Command::MATCH("good".to_string())));
    assert_eq!(parse_line_to_cmd("RESPONSE \"hello\""), Some(Command::RESPONSE("hello".to_string())));
    assert_eq!(parse_line_to_cmd("CASE \"hi\""), Some(Command::CASE("hi".to_string())));
    assert_eq!(parse_line_to_cmd("DEFAULT"), Some(Command::DEFAULT));

    assert_eq!(parse_line_to_cmd("CASE"), None);
}

#[test]
fn test_parse_file_to_cmds() {
    let command_vec = parse_lines_to_cmds(&script_lines(SCRIPT));
    assert_eq!(command_vec.len(), 22);
    assert_eq!(command_vec[0], Command::START);
    assert_eq!(command_vec[3], Command::MATCH("我的订单状态是什么".to_string()));
    assert_eq!(command_vec[11], Command::RESPONSE("你的配送地址已经更改为100号大街。".to_string()));
    assert_eq!(command_vec[16], Command::RESPONSE("对不起，我无法查询到你提供的订单信息，请检查订单号是否正确。".to_string()));
    assert_eq!(command_vec[21], Command::END);
}

#[test]
fn unknown_keyword_is_reported() {
    assert!(is_unknown_command_line("BADSTART"));
    assert!(is_unknown_command_line("  STAET"));
    assert!(is_unknown_command_line("MATCHES \"x\""));
    assert!(is_unknown_command_line("\"quoted\" MATCH"));
    assert!(!is_unknown_command_line("START"));
    assert!(!is_unknown_command_line(""));
    assert!(!is_unknown_command_line("   \t  "));
    assert!(!is_unknown_command_line("\"!!\" ..."));
    assert!(!is_unknown_command_line("CASE"));
}

#[test]
fn lines_without_a_command_read_as_none() {
    assert_eq!(parse_line_to_cmd(""), None);
    assert_eq!(parse_line_to_cmd("   \t "), None);
    assert_eq!(parse_line_to_cmd("!!! ???"), None);
    assert_eq!(parse_line_to_cmd("MATCH"), None);
    assert_eq!(parse_line_to_cmd("RESPONSE \"unclosed"), None);
    assert_eq!(parse_line_to_cmd("MATCH x \"quoted\""), None);
}

#[test]
fn indentation_and_surrounding_space_are_ignored() {
    assert_eq!(parse_line_to_cmd("    START   "), Some(Command::START));
    assert_eq!(parse_line_to_cmd("\tMATCH    \"我需要帮助\"  "), Some(Command::MATCH("我需要帮助".to_string())));
    assert_eq!(parse_line_to_cmd("\u{3000}END\u{3000}"), Some(Command::END));
}

#[test]
fn quoted_argument_runs_to_the_last_quote() {
    assert_eq!(parse_line_to_cmd("MATCH \"a\" and \"b\""), Some(Command::MATCH("a\" and \"b".to_string())));
    assert_eq!(parse_line_to_cmd("RESPONSE \"\"\"x\"\"\""), Some(Command::RESPONSE("x".to_string())));
    assert_eq!(parse_line_to_cmd("CASE \"\""), Some(Command::CASE(String::new())));
    assert_eq!(parse_line_to_cmd("MATCH\"tight\""), Some(Command::MATCH("tight".to_string())));
    assert_eq!(parse_line_to_cmd("START \"ignored\""), Some(Command::START));
    assert_eq!(parse_line_to_cmd("MATCH \".*物流.*\""), Some(Command::MATCH(".*物流.*".to_string())));
}

#[test]
fn keyword_is_the_first_word() {
    assert_eq!(parse_line_to_cmd("-- END --"), Some(Command::END));
    assert!(is_unknown_command_line("END_OF"));
    assert!(is_unknown_command_line("START中"));
}

/// The line grammar agrees with the regular expression `(\w+)\s*(".*")?`
/// searched in the trimmed line.
#[test]
fn line_reading_agrees_with_the_line_regex() {
    let re = regex::Regex::new(r#"(\w+)\s*(".*")?"#).unwrap();
    let keywords = ["START", "MATCH", "RESPONSE", "CASE", "DEFAULT", "UNKNOWN", "END"];
    let mut lines: Vec<String> = Vec::new();
    let pieces = [
        "", " ", "\t", "\u{3000}", "\"", "\"\"", "x", "中文", "\"a\"", "\"a\" \"b\"", "\"a\nb\"", "é",
        "_", "9", "!", "\"unclosed", "\u{0301}",
    ];
    for kw in keywords.iter() {
        for p1 in pieces.iter() {
            for p2 in pieces.iter() {
                lines.push(format!("{}{}{}", p1, kw, p2));
                lines.push(format!("{}{} {}", p1, kw, p2));
            }
        }
    }
    for p1 in pieces.iter() {
        for p2 in pieces.iter() {
            lines.push(format!("{}{}", p1, p2));
        }
    }
    for line in lines.iter() {
        let trimmed = line.trim();
        let expected: Option<Option<Command>> = if trimmed.is_empty() {
            Some(None)
        } else {
            match re.captures(trimmed) {
                None => Some(None),
                Some(cap) => {
                    let arg = cap.get(2).map(|m| m.as_str().trim_matches('"').to_string());
                    match cap.get(1).unwrap().as_str() {
                        "START" => Some(Some(Command::START)),
                        "MATCH" => Some(arg.map(Command::MATCH)),
                        "RESPONSE" => Some(arg.map(Command::RESPONSE)),
                        "CASE" => Some(arg.map(Command::CASE)),
                        "DEFAULT" => Some(Some(Command::DEFAULT)),
                        "UNKNOWN" => Some(Some(Command::UNKNOWN)),
                        "END" => Some(Some(Command::END)),
                        _ => None,
                    }
                }
            }
        };
        match expected {
            None => assert!(is_unknown_command_line(line), "line {:?}", line),
            Some(cmd) => {
                assert!(!is_unknown_command_line(line), "line {:?}", line);
                assert_eq!(parse_line_to_cmd(line), cmd, "line {:?}", line);
            }
        }
    }
}

#[test]
fn blank_and_unreadable_lines_are_skipped() {
    let lines = vec![
        "".to_string(),
        "START".to_string(),
        "  ".to_string(),
        "MATCH".to_string(),
        "MATCH \"a\"".to_string(),
        "END".to_string(),
    ];
    assert_eq!(
        parse_lines_to_cmds(&lines),
        vec![Command::START, Command::MATCH("a".to_string()), Command::END]
    );
    assert_eq!(parse_lines_to_cmds(&Vec::new()), Vec::<Command>::new());
}

#[test]
fn command_text_displays_each_command() {
    assert_eq!(command_text(&Command::START), "STAET");
    assert_eq!(command_text(&Command::MATCH("m".to_string())), "MATCH: m");
    assert_eq!(command_text(&Command::RESPONSE("r".to_string())), "RESPONSE: r");
    assert_eq!(command_text(&Command::UNKNOWN), "UNKNOWN");
    assert_eq!(command_text(&Command::CASE("c".to_string())), "CASE: c");
    assert_eq!(command_text(&Command::DEFAULT), "DEFAULT");
    assert_eq!(command_text(&Command::END), "END");
}

#[test]
fn trim_removes_unicode_white_space() {
    assert_eq!(trim("  a b \t"), "a b");
    assert_eq!(trim("\u{3000}\u{a0}中\u{2029}"), "中");
    assert_eq!(trim(" \n\r "), "");
    assert_eq!(trim(""), "");
    for s in ["x\u{85}", "\u{1680}y\u{200a}", "\u{180e}z", "\u{200b}w"].iter() {
        assert_eq!(trim(s), s.trim());
    }
}
