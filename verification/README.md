# rklipperscreen

The logic of a touchscreen front end for Klipper printers that talks to
Moonraker, written in Verus with its behaviour stated in contracts and proved.

- `src/text.rs`: string utilities (`trim`, `split_whitespace`, ...) stated on
  character sequences.
- `src/config/`: INI documents and their parsing from text (`ini_model.rs`,
  over the `rust-ini` crate), documents assembled with their includes, the
  configuration cascade and what it yields (`parser.rs`), and menus with
  their breadcrumb navigation (`menu.rs`).
- `src/json.rs`, `src/printer/state.rs`: JSON values, their compact text, the
  deep merge of status updates and the fields an update sets.
- `src/api/`: the websocket subscription and connection loop decisions, REST
  endpoints, thumbnail extraction from G-code, Spoolman queries.
- `src/system/`: Wi-Fi, notifications, screen power, translations (catalogs
  read from MO bytes), display backend.
- `app/`: the program around the library: reading files, HTTP, websocket, D-Bus,
  libinput, and the parts that compute with floating point.
- `tests/`: tests of the library.
