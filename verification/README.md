# npxc

Sandboxed npm execution for MCP servers: `npxc` runs a Node.js package in a container,
stands between it and its client as a JSON-RPC proxy on standard input and output, gives
it only the files that a request names and that lie under the working directory, and lets
it reach only the network destinations that are on its allowlist.

## Layout

`src/` is a library verified with [Verus](https://github.com/verus-lang/verus). It holds
every decision and every format; it does no I/O.

| Module | What it decides |
|---|---|
| `config` | package specs, names and versions; where settings live; how they combine |
| `paths` | which arguments are paths; which paths are in scope; how files are published |
| `rpc` | framing, the parts of messages, what becomes of each message |
| `runtime` | images, networks, launch plans and commands, the course of a run |
| `tunnel` | the egress policy, hostnames read ahead, DNS answers, the WireGuard state |
| `doctor` | what is checked and set up before the first run |
| `report`, `cli` | what is printed, and what the command line means |
| `json`, `text`, `bytes`, `table`, `error` | what the others are built on |

`app/` is the program around it: the command line, files, processes, sockets and tasks.
`tests/` runs the library.

## What is proved

Every function of `src/` states what it returns or changes, and Verus proves it, apart from
the few functions marked `#[verifier::external_body]` and the items marked
`assume_specification`: each of those makes one call into another crate or the standard
library, some with the calls that build its arguments or take its result apart, and its
comment says what is taken on trust.

Properties that span functions are public `proof fn`s, most of them at the end of their
module. Among them: a path that is accepted lies under the working directory, links resolved
(`paths::validate`); a forwarded call names container paths and nothing else of it changes
(`rpc::pipeline`); a refused call is answered under its own id (`error`, `rpc::pipeline`); an
empty allowlist relays nothing (`tunnel::endpoint`); every session is torn down
(`runtime::lifecycle`).
