# mcp-proxy

A reverse proxy that aggregates multiple [MCP](https://modelcontextprotocol.io)
servers into a single endpoint. Servers are defined once in `servers.json`;
clients connect over HTTP, over standard input and output, or through a bridge
from one to the other.

The decisions of the proxy are a Verus library: what it does is stated in
`requires` and `ensures` contracts and proved. A thin program around it does the
reading, writing, spawning and listening.

## Layout

| Path                 | What it holds                                                    |
| -------------------- | ---------------------------------------------------------------- |
| `src/text.rs`, `src/names.rs`, `src/picked.rs` | Texts, maps by name, filtered lists    |
| `src/json.rs`        | JSON values, and the reading and printing of them                 |
| `src/expand.rs`      | Placeholders in texts                                             |
| `src/glob.rs`        | Patterns for tool names                                           |
| `src/config.rs`      | Servers, profiles, overrides, the environment                     |
| `src/jsonrpc/`       | Requests, responses, errors                                       |
| `src/backend.rs`     | A backend: its tools, requests in flight, crashes and restarts    |
| `src/pool/`          | The pool: scopes, routing, idle reaping, reloading                |
| `src/custom_tools.rs`| Tools that the config itself defines                              |
| `src/docker.rs`, `src/generate.rs` | Dockerfiles, images, containers                     |
| `src/server.rs`      | The hub: the pool and the custom tools behind one dispatch        |
| `src/transport/`     | HTTP sessions and streams, stdio lines, the bridge                |
| `src/clients.rs`     | Registration with client applications                             |
| `src/cli.rs`, `src/commands/` | The commands and what they say                           |
| `tests/`             | Tests of the library                                              |
| `app/`               | The program                                                       |

Each module states its laws at its end, as public proof functions: that a
session's backends are its own, that a reaped or dead backend is started again
by the next call, that a change of the config leaves unchanged servers alone,
that the bridge reads what the hub streams, and more.

What the library takes on trust stands behind small wrappers with a comment that
says what is claimed: reading and printing JSON (`serde_json`), base64
(`base64`), random session ids (`uuid`), and the text of an error (`anyhow`).

## Commands

```
mcp-proxy [OPTIONS] <COMMAND>

Options:
  -c, --config <PATH>    Path to servers.json [env: CONFIG_PATH]
      --profile <NAME>   Profile to use [env: MCP_PROFILE]

Commands:
  serve       Start the aggregator (default: http on port 3000)
  bridge      Stdio-to-HTTP bridge for stdio-only clients
  server      Manage servers (add, remove, edit, list)
  profile     Manage profiles (add, remove, set, unset, switch, list)
  clients     Install/sync mcp-proxy into client applications
  health      Check health of a running hub
  init        Create a starter servers.json
  test        Validate config and verify MCP handshakes
  generate    Write a Dockerfile and .env.example
```

`clients` registers the proxy with Augment, and with the desktop and the
command-line client of the vendor that `MCP_CLIENT_VENDOR` names.

A profile in `profiles.json` picks servers by `include` and `exclude`: the
included ones, or all if none is included, without the excluded ones. Servers
given on the command line win over it. `serve` with a profile runs the servers
that it picks, with its overrides merged onto them, and those that it defines.

In the templates of a custom tool, `{{name}}` stands for an argument, which is
put in as it is; a mark that names no argument is left. `${NAME}` stands for an
argument or a variable of the environment.
