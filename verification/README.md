# Agent sandbox

A local process sandbox for coding agents, CI workers and automation. A daemon takes policies over
a line protocol on its standard input, and runs processes behind the isolation of the operating
system.

The rules stand in a library that Verus verifies; the program around it does what only the host
can do.

- `src/` is the library. Its modules decide which policies hold on a host, which executions they
  admit, how a process is launched, what the daemon answers, and in which order grants are made,
  recorded and taken back. What the host knows is handed in as plain values. Contracts speak of
  texts as sequences of characters, of maps and of sequences; `law_` functions state what holds of
  several functions together.
- `tests/` runs the library on concrete values.
- `app/` is the daemon: command line, JSON, file system, access lists, processes and pipes.

| Modules | Subject |
| --- | --- |
| `policy`, `workdir`, `path`, `environment`, `limits` | policies and the executions they admit |
| `daemon`, `session`, `execution`, `closing`, `output`, `identifier` | the daemon's state, its protocol, and the course of executions and of sandboxes |
| `native`, `windows_backend`, `windows_acl`, `windows_environment`, `windows_quoting` | AppContainer sandboxes |
| `authorization`, `upgrade` | persistent authorizations |
| `windows_user_backend` | dedicated-user sandboxes |
| `linux_backend`, `macos_backend`, `unix_backend`, `unix_launch`, `seatbelt` | Unix launches |
| `protocol`, `error`, `digest`, `string_map`, `text`, `lines` | messages, failures and basic data |

On Windows every sandbox is an AppContainer: an ephemeral one has a profile of its own, a persistent
one that of its authorization. The dedicated-user backend is not offered yet. On Linux and macOS no
backend is offered yet: sandboxes are refused there, and the report says `unavailable`.
