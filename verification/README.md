# consult

Asking other models of a mesh for help: which peer to turn to, what to send it, and
what to make of its reply.

`src/` is the library, verified with Verus:

- `performance`, `candidates`: how two served models compare.
- `peers`: what the mesh tells about its peers.
- `selection`: the one peer to ask for a capability, such as vision.
- `ranking`: the best peers that serve other models, each model once.
- `chat`, `http`, `json`: requests for a chat completion, and replies to them.
- `opinions`, `race`: captions of images, second opinions, and asking two peers at once.
- `errors`, `text`, `decimal`, `lexicographic`: error messages, and text as bytes.

What is believed without proof is in `json` (`serde_json`) and in `chat`
(`String::from_utf8_lossy`); each such item says what it claims.

`app/` carries consultations out over QUIC tunnels, with timeouts. `tests/` runs the
library on examples.
