# tunnelto_server

The decision logic of an HTTP tunnel server. A client opens a tunnel and is given an id for
it, a UUID; a request for `/<id>/some/path` is handed on to that client as a request for
`/some/path`. A client with a key may ask for a sub-domain instead. A request to
`<sub-domain>.<host>` is handed on to the client of that sub-domain with its path as it is.

`src/` is written in Verus: every function has a contract that says exactly what it returns
or changes, and Verus proves it.

| module | what it decides |
| --- | --- |
| `client_auth` | the handshake with a client that wants a tunnel |
| `tunnel_id` | which ids a tunnel can have, and how they are spelled |
| `peek`, `accept` | what a new connection is for, and where it goes |
| `forward` | cutting a connection into requests and handing each on |
| `forward_laws` | what holds of every connection, however its bytes come in |
| `control` | what a client is told of a connection, from its opening to its end |
| `sink` | what the messages of a client make of a connection |
| `paths`, `urls` | request targets: their normal form, the tunnel in them |
| `http`, `bytes` | request heads, their headers and their bytes |
| `responses` | the answers that the server gives by itself |
| `config`, `text` | settings, and operations on strings |

Functions named `law_...` state and prove what the contracts mean together.

Four functions call code that is not verified, and their contracts are trusted:
`urls::parse_url` (`url`), `http::parse_request` (`httparse`), `tunnel_id::parse_uuid`
(`uuid`) and `http::utf8_text` (`std`).

`app/` holds what reads and writes: sockets, websockets, the id service and the wire format.
`tests/` runs the library on concrete values.
