# roon_api

A client library for the Roon extension protocol, written in Rust and verified with Verus.

An extension looks for cores on the local network, connects with them, registers with them, and
from then on both sides can ask each other for things. The library holds everything in this that
is decided or computed. It touches no socket, file or timer: what came in is handed to it, and it
says what goes out, what the user is told, and what is stored.

An extension is paired with one of the cores (`RoonApi::new`), or works with each core that it
finds (`RoonApi::without_pairing`).

| Module | What it is about |
|---|---|
| `sood`, `sood::datagram` | discovery: datagrams, interfaces, which cores to connect with |
| `moo`, `moo::message`, `moo::frame`, `moo::content` | messages: how they are written and read, request ids, what is logged |
| `hub` and below | the connections: registration, requests, answers, lost cores |
| `service` | services that the extension provides, and subscriptions to them |
| `ping`, `pairing`, `status`, `settings` | services that come with the library |
| `transport`, `browse`, `image` | services of a core |
| `api`, `info`, `logger` | the extension: what it tells about itself, what it stores, what it logs |
| `json`, `json_text` | documents, which `serde_json` reads and writes |
| `table`, `text` | tables keyed by text, and texts |

Each public function states what it returns and changes, over mathematical models of messages,
documents and tables. What relates several functions is stated in proof functions beside them:
that a message is read as it was written (`moo::frame::frame_reads_back`), that a datagram is
(`sood::datagram::datagram_reads_back`), that the token of a core is sent back to it
(`hub::register::token_is_sent_back`), and so on.

`app/` is the ordinary Rust around the library: sockets, tasks, files, and the types with which a
core's answers are decoded. `tests/` runs the library on examples.
