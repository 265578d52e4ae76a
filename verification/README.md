# qq_bot

A QQ group bot: it keeps a per-group gallery of images (`入典` stores the image
of a message, `典` shows a random stored one, `出典` removes one), evaluates
Haskell expressions with GHCi (`!ghci <expr>`), keeps a per-group blacklist
(`!blacklist add|remove <member>`) and answers "还能说话吗" when mentioned.

- `src/` is the library, verified with Verus: the text handling the bot relies
  on (`text`, `number`), the blacklist and its file format (`blacklist`), the
  image store (`image`), GHCi output handling (`ghci`), the replies (`reply`),
  and the message handlers as state machines (`interface`, `blacklist_command`,
  `heartbeat`) whose actions the caller performs.
- `app/` is the program around it: logging in, the `proc_qq` event handlers
  that run those state machines, file and network I/O, and running GHCi.
- `tests/` exercises the library.
