# hotline-protocol

Verified protocol logic for a Hotline client: tracker listings, folder and
file transfer framing, inline media exchanges and their cache, custom GIF
avatars, file dates and server discovery.

`src/` is a Verus library. Each exchange that alternates network I/O with
decisions is written as a state machine that the caller drives: the library
says what to read or send next and judges what came back
(`tracker_session`, `batch_listing`, `record_listing`, `media_transfer`,
`transfer_io::ForkReader`). Outside crates (`encoding_rs`, `hex`, `base64`,
`sha2`, `image`) are called through small trusted wrappers whose contracts
are stated next to them.

`app/` holds what stays outside verification: sockets, TLS, the filesystem,
the animation-frame check of GIF and animated PNG images (it sums frame
delays in floating point under a wall-clock bound), and the serde forms of
the library's types.

`tests/` exercise the library with concrete values.
