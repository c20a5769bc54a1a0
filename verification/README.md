# snakerobots

The logic of a programming game in which players write robots that steer
snakes, verified with Verus.

- `src/` is the verified library: grid geometry (`math`), snakes (`snake`),
  robots and replays (`robot`, `game`), the timeline that plays recorded
  games forwards and backwards (`timeline`), ranked match making
  (`matchmaking`), the game worker's decisions (`worker`), positions and
  messages in robot code (`position`, `lang_error`), SQL column lists
  (`rowplus`), input rules and error answers (`validation`, `route_error`),
  and the client's result values (`client`, `dto`).
- `tests/` runs the library on concrete games, texts and queues.
- `app/` holds the I/O around the library: serde forms of the data, the
  database match queue, the match maker's loop and the game worker.
