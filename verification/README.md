# quark

A small command system: a command line such as `spawn goblin 5` is parsed into
a command name and its arguments, commands are registered by name in a `Quark`
registry, and a line is dispatched to the command it names.

The library in `src/` is written in Verus and verified:

- `text` — the Unicode whitespace predicate, trimming, and the two standard
  library calls the library relies on (`String::push`, `char::to_uppercase`).
- `parser` — the tokenizer (whitespace, single and double quotes, escapes) and
  `parse_command_string`, specified by a scanning state machine.
- `parser_laws` — what the parser gives back for lines written from words,
  that surrounding whitespace does not matter, and that tokens are never empty.
- `error` — `CommandError`, its messages, and decimal formatting.
- `metadata` — `CommandMetadata`.
- `command` — the `Command` trait that users implement; an implementation
  checked by Verus describes its four texts and what `execute` returns
  through the trait's spec functions.
- `registry` — `Quark`: a map from each registered name to the command's
  metadata and asynchrony (read when it was registered); registration,
  lookup, and synchronous execution, whose result is what the `execute` of
  the command held under the parsed name returns on the parsed arguments;
  what a sequence of registrations leaves in the registry.
- `command_macro` — the decisions of the `#[command(...)]` attribute: reading
  its arguments, checking the function's parameters, naming the generated type.

`app/` holds what Verus does not take: the `thiserror` copy of the error type,
asynchronous commands, and the `syn`/`quote` front end of the attribute.
