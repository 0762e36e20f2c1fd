# mcscan

A scanner for lists of Minecraft servers. It asks each server for its status
(version, players, message of the day, icon) and, if wanted, how it
authenticates players, and writes what it finds to a JSON file.

`src/` is the library, verified with Verus:

- `varint`: variable-length integers, written and read
- `text`, `uuid`: characters, decimal numbers, player identifiers
- `packet`: the packets that are sent
- `status`: the status exchange, up to the JSON text of the answer
- `login`, `auth`: what the answers to a login mean, and the session that follows
  them
- `motd`: the message of a status, without its color codes
- `targets`: the list of servers to scan
- `scan`: the record of a scan, and the totals over many
- `error`: what can go wrong

Each function states in its contract what it returns. The proof functions whose
names start with `law_` state what holds of several together, such as that what
is written is read back.

`app/` is the program around it: connections, timeouts, files, and the JSON form
of the records. `tests/` runs the library.
