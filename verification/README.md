# rustsmb

An SMB file server whose protocol logic is proved with Verus.

`src/` is the library. It computes and decides: it reads requests, keeps the state of
connections, and builds answers. It touches no file, socket or clock. Where a command
needs one, the library plans the work, and a second function takes the outcome and
answers. What a function does is stated in its `requires` and `ensures`; properties that
span functions are public proof functions whose names start with `law_`.

- The older dialect: `smb`, `message`, `nbss`, `dispatch`, `handlers`, `files`, `dirops`,
  `trans2`, `state`; on a storage backend: `backend1`, `session1`, `opens1`,
  `subcalls1`, `vfs`.
- The newer dialects, whose modules end in `2`: frames (`frame2`, `wire2`, `reply2`),
  negotiation and sessions (`negotiate2`, `session2`), one message (`exchange2`), chains
  of messages (`chain2`), and the commands (`create2`, `durable2`, `ioctl2`, `query2`,
  `io2`, `ops2`, `serve2`, `async2`).
- Tables shared by connections: `locks`, `share_modes`, `leases`, `app_instances`,
  `sessions`.
- Authentication and cryptography: `auth`, `ntlm`, `crypto`, `rc4`, `sealing`.
- Descriptors and the share list: `security`, `idmap`, `srvsvc`.
- The conformance suite and its reports: `suite`, `report`, `json`, `jsonread`, `options`, `lint`.

`app/` is the program around the library: the server loops, the file system, the clock
and the command line. `tests/` runs the library on concrete values.
