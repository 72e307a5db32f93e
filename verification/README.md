# crew_app

The decision logic of the crew terminal's windows, message channels and chat
transcript, written in Verus and proved against its contracts.

- `src/canvas.rs` — windows ("canvases"): pane addressing (`p3`, `w1p0`),
  routing an ask to the window that can answer it, the roster, closing and
  quitting, sharing the config, saving a session window by window and
  splitting it back, merging a broadcast's answers.
- `src/channel.rs` — `kind:rest` addresses and the router that delivers a
  reply to the one channel owning its kind; a loopback channel.
- `src/telegram.rs`, `src/botapi.rs` — the Telegram channel: the allowlist,
  one poll cycle (offset, refusals, addressed messages), sending, and reading
  a `getUpdates` response held as a JSON tree.
- `src/message.rs`, `src/fold.rs`, `src/find.rs`, `src/complete.rs`,
  `src/flash.rs`, `src/header.rs` — the chat transcript: who is speaking,
  folding a long history, which cards fold and where a click lands, find,
  tab-completion, the status counter's flash, header spacing.
- `src/text.rs`, `src/num.rs` — characters, trimming, number text.
- `app/` — the HTTPS client, the environment and the long-poll thread, and
  what is floating point.
