# atomic_controller

The core of a controller for game-server clouds, verified with Verus. It
keeps the servers (units) it has started and their life cycle, the groups
(deployments) that keep a number of servers running, the users connected to
them and their transfers between servers, the tokens of servers and users,
and the listeners of events and channel messages. Every request that a
server, a user or an administrator sends is decided here: who sends it,
whether it is refused and with what message, and what it changes.

Layout:

- `src/` — the verified library. A tick decides which stops and starts
  are due; `Controller::place_start` decides, from the nodes' answers, on
  which node a due server starts or that it waits in the queue again.
  `watcher` keeps who hears of which published message. Each public function states in its contract
  what it returns and how the controller state changes; the public proof
  functions named `law_*` state properties that span several calls.
- `tests/` — tests of the library on concrete values.
- `app/` — the program around it: command line, configuration and data
  files, and the once-a-second tick loop, which offers due starts to the
  nodes. It holds the pieces a network front end needs (the token check,
  a stream adapter, the conversion of refusals), but serves no requests:
  the service definitions are not part of this project, and neither are
  the node drivers, so no node accepts a start.

Two calls go to the `uuid` crate: parsing a uuid from text and making a
random one. Their contracts are the only trusted statements in the library.
