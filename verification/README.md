# browser_network

Network policy and page diagnostics for a browser automation agent, verified with
Verus.

- `src/` is the library. It decides; it does no I/O. The domain filter says where
  the agent may navigate and what a page may load, the ceiling bounds what
  configuration can allow, the handshake tells the expected local server from any
  other, the commands put the filter in force, and the console and tracker modules
  make what a page logs readable and keep the latest of it.
- `tests/` runs the library on concrete values.
- `app/` sends the commands to a browser and the handshake request to a server.

A domain pattern may hold `*` anywhere. `*` stands for any text, and a leading
`*.` may also be left out, so that `*.example.com` covers `example.com`. The script
that is put into pages compares hosts for itself and is simpler: there `*` is a
wildcard only in a leading `*.`.

What is not proved is what other crates do: `serde_json` writes JSON text, `url`
reads the host of a URL, and std trims and lowers text. Each such call stands
behind one declaration, with what is claimed of it.
