# Outpost

A self-hosted monitor for servers: an agent on each machine reads `/proc` and reports over an encrypted
connection, a server stores the reports, shows them, and raises alerts.

`src/` is the library, verified with Verus: what readings and messages mean, which requests are
accepted and what is answered, when an alert begins and ends, how limits, sessions, tokens, passwords
and the second factor work. Floating point numbers stand in it as their bits (`measure`).

- `text`, `num`, `measure`, `json`, `ip`, `calendar`, `clock`, `table`, `ranking`: what both programs
  build on.
- `common`, `metrics`: the messages between agent and server, and how they are cleaned.
- `agent`: reading the machine, the configuration, the connection to the server.
- `server`: configuration, sessions, limits, alerts, messages to users, retention; `server::handlers`
  holds what the requests decide.

`app/` is ordinary Rust around the library: the two programs, files, sockets, the database, and
arithmetic on floating point numbers. `tests/` runs the library.

The server looks for its tables (`migrations/`) and the files of the user interface (`static/`) under
the directory that `OUTPOST_SHARE` names, `/usr/share/outpost` where it is not set.
