# hop

Share one keyboard and mouse across several computers: the server
captures local input, keeps a virtual cursor over a layout of screen
rectangles, and routes input, clipboard and file transfers to the
client whose screen the cursor is on.

- `src/` is the verified library (Verus): every decision the server
  makes — layout lookups and validation, the coordinator state machine
  and its routing, held keys across crossings, clipboard grab ordering,
  frame boundaries, session reactions, X11 keysym and selection logic,
  manifest walks and the transfer receiver — with contracts and laws.
- `tests/` exercises the library on concrete values.
- `app/` is the unverified I/O around it: the CBOR wire codec, the
  layout file and its live snapshot, the screen backends, the tokio
  tasks for peers and the coordinator, and file-transfer disk I/O.
