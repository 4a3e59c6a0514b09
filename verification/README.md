# chatbot_dsl

A customer-service chatbot driven by a small script language (`START`,
`MATCH`, `RESPONSE`, `CASE`, `DEFAULT`, `UNKNOWN`, `END`), written in Verus.

- `src/text.rs` – white-space trimming and the character classes of the line
  grammar.
- `src/command.rs` – commands, and reading script lines into commands.
- `src/block.rs` – the block tree and the state machine that reads commands
  into it.
- `src/script.rs` – the reply to each line a user types, with script
  patterns matched as regular expressions.
- `src/parse.rs` – `ParseError` and `script_parse`.
- `src/script_text.rs`, `src/block_laws.rs`, `src/command_laws.rs` – the
  script form of a block tree and the proved properties of reading.
- `app/main.rs` – the program: file and terminal input and output.
- `tests/` – tests of the library.
