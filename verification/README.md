# schnake

A multiplayer snake game for the browser in which the first player hosts the
simulation and the others connect to it over WebRTC data channels, exchanging
session descriptions by QR code.

- `src/` is the verified library: the board and its rules (`game`, with the laws
  every operation keeps in `game_laws`), the messages (`protocol`), the local
  player's session (`session`), the framing of session descriptions (`signal`),
  the QR pictures (`qr`), page text and class names (`page`) and string helpers
  (`text`).
- `app/` is the browser front end: DOM, canvas drawing, data channels, timers and
  the JSON wire format of the messages.
- `tests/` runs the library on concrete boards, messages and strings.
