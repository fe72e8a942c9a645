# WhatsApp export reader

The library behind a desktop viewer for exported WhatsApp chats, verified with
Verus.

* `src/` is the library. It reads the text of an export line by line into
  messages (iOS `[date, time] sender: text` and Android
  `date, time - sender: text` layouts, multi-line messages, system notices,
  deleted and edited messages, attachments), applies the limits and choices of
  an import (entry count, extracted size, skipped entries, which `.txt` file
  holds the chat, the chat's name), indexes the extracted attachments by file
  name, and computes the effect of local edits, deletions and restorations.
  Every function carries a contract that Verus proves; the laws that hold
  across calls (one message per header line, well-formed messages, restore
  undoing edits and deletions, ...) are proof functions.
* `app/` is the Tauri program around it: ZIP extraction, SQLite storage, the
  commands the interface calls, progress events.
* `tests/` runs the library on concrete exports, and checks the line grammar
  against equivalent patterns of the `regex` crate on generated lines.
