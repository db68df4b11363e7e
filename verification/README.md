# tchat

A line-based chat over TCP, with its protocol (`PROT`, `NAME`, `MSG`,
`FROM`, `JOIN`, `LOGOUT`, `LIST CLIENTS`, `PING`/`PONG`, `BYE`) and what the
server and the clients decide stated in contracts and proved with Verus.

* `src/` — the verified library:
  * `text` — white space, words, parts between spaces, trimming, UTF-8 lengths;
  * `clock` — the `[HH:MM:SS]` time stamp (read through `chrono`);
  * `registry` — the table of users and the lines each receives;
  * `server` — the handshake and the answer to each line in the room;
  * `client` — nicknames, typed lines, the handshake, reading server lines,
    laying out messages (terminal size through `term_size`), colours;
  * `gui` — the decisions of the graphical client;
  * `launch` — the command lines of the programs;
  * `framing` — the echo program's line framing;
  * `laws` — properties that span several of the above.
* `app/` — the programs around it: sockets, threads, the keyboard, the
  terminal colours (`colored`).
* `tests/` — tests of the library on concrete values.
