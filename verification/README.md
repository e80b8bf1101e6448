# lyceumnstubot

A Telegram bot that shows the timetable of the NSTU lyceum, which the school publishes
with NIKA. The library under `src/` is verified with Verus; `app/` is the bot itself.

- `src/client.rs` finds, in the timetable page, the data script to fetch and, in that
  script, the object literal to decode.
- `src/patterns.rs` holds the regular expressions of the bot and the calls into the `regex`
  crate that compile and run them.
- `src/response.rs` models the published timetable as key/value lists whose keys ascend,
  and checks that order.
- `src/formatter.rs` renders the timetable of a class or a teacher as an HTML message.
- `src/keyboards.rs` lays out the class and teacher menus; `src/bot.rs` says where a
  pressed button leads and what the bot answers.
- `src/date.rs`, `src/text.rs` and `src/grouping.rs` hold dates, text building blocks
  and grouping into runs and chunks.

`app/` fetches the pages, decodes the data with serde and drives the Telegram API.
