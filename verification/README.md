# goal_bot

A bot that watches new submissions on r/soccer, picks out the goal clips of
the competitions it serves, fetches each clip from its video host and posts it
to the competition's Telegram channel; replays collected under a goal are
forwarded as replies in a second channel.

- `src/` is the verified library: reading titles and team names, the
  submission filter, video hosts and where each keeps its clip, reading HTML,
  JSON and comment trees, the bot's state (posted goals, forwarded replays,
  token age) and the decisions taken on it, retry schedules, and the texts the
  bot sends.
- `tests/` runs the library on concrete values.
- `app/` is the program around it: the environment and team files, HTTP,
  the browser, Reddit's stream, Telegram, and the loops that carry out the
  library's decisions.

The team lists are read at start-up from `config/<competition>.json`; the chat
ids come from the `CHAT_ID_*` environment variables.
