# keydeck

A hub that turns phones and tablets into a split layered keyboard, an iPad keyboard
and a Stream-Deck-like button deck for a PC. Browsers send only key and slot ids; the
hub resolves them against the loaded keymaps and deck and types the result on the PC.

The library (`src/`) is verified with Verus:

- `keymap` — actions, keymaps (a keymap file with its board or halves, and one file
  per layer, put together by `combine_keymap`), load-time validation and the layer
  resolution engine (`mo`, `tg`, `trans`; the highest active layer wins).
- `vk`, `adapter` — the key-name dictionary, its virtual-key codes, and the keyboard
  event plan of each action with the `KeySender` that releases held modifiers.
- `deck` — deck setlists and their validation.
- `startup` — putting the keymaps, the deck and the allow-list together; any error
  rejects the whole set.
- `hub` — the access token, allow-list ids, connection URLs, the hub's state and what
  each client message does to it (as an effect for the application to carry out).
- `protocol` — the wire vocabulary and error codes.
- `hub_core` — the command allow-list and idempotent command service.
- `inspector` — revisioned inspector targets.
- `qr`, `json` — QR codes and JSON reading through `qrcode` and `serde_json`.
- `strmap`, `text` — an ordered string-keyed map and text helpers.

`app/` is the program: file loading, serde shapes, the axum server, the websocket
clients and the Windows `SendInput` worker.
