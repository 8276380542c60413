# omnicede

An agent's memory as a graph in one SQLite file, written in Verus: the library
under `src/` is verified, and every function states in its contract what it asks
the database and what it makes of the answer.

- `db`: the connection and its history, the queries of the graph, the walk over
  everything under a session.
- `session`: one session for each user on each channel.
- `linking`: how a new node is related to nodes that are like it, and when it
  counts as a contradiction.
- `upkeep`: importance that decays with time, trust that follows the evidence.
- `compaction`: a conversation boiled down to facts.
- `omniseed_provider`, `rpc`: the memory Provider of one company, behind JSON-RPC
  on lines.
- `channels`: the webhook channel.
- `cortex`: the agent core over all of these.
- `store`: what follows where a database keeps to its statements: what was stored
  is found, what was removed is gone, and what is done twice is done once.

Nothing is claimed of what a database answers: it is shared with the disk. The
`history` of a connection holds every statement with its answer, and the laws
(`law_...`) say what follows from it.

`tests/` runs the library on databases in memory. `app/` is the program around it:
the Provider's server loop, the HTTP client, the tasks in the background, and the
floating-point arithmetic on scores.
