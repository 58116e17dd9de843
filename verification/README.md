# emulebb_ed2k

The logic of an ED2K client, verified with Verus: the session with a server,
keyword and source searches, the offer of shared files, the obfuscation of
connections and datagrams, and the reasking of queued sources over UDP.

- `src/` is the library. It opens no socket, no file and no clock: sessions,
  searches and the reask service take events and say what is to be done. Each
  function states what it does, and the proof functions named `law_*` state
  what holds of the library as a whole.
- `app/` is the code around it: connections, datagrams, files, channels and
  the loops that carry out what the library decides.
- `tests/` runs the library on given values.

Times are milliseconds on the clock of the caller. What the library takes on
trust of other crates stands in `digest`, `compression`, `bignum`,
`hexadecimal`, `random` and `text`, with what is claimed of each function.
