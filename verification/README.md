# ace-proxy

A proxy between a JSON-RPC client and backends that each serve one workspace root. The library
holds every decision of the proxy and is verified with Verus; the program around it reads and
writes, starts processes and asks the disk.

| Module | What it decides |
| --- | --- |
| `path`, `uri`, `text` | paths as bytes and components, `file:` URIs, text helpers |
| `probe`, `git_root` | the git work tree that a path lies in, and a memory of those found |
| `roots`, `grouping`, `routing` | the workspace root of a request, and changed files by root |
| `windows_git_root`, `windows_routing` | the same for paths that Windows reads |
| `pending` | the ids that requests travel under, and whom an answer is for |
| `backend` | the life of one backend: start, requests, health, shutdown, restart |
| `pipeline` | the lines to and from a backend process |
| `retry` | when a request is sent again and when its backend is restarted |
| `config`, `detect`, `windows` | the configuration and where its parts come from |
| `job_object`, `startup` | Windows job objects, logging and the single-instance lock |

Questions to the outside (whether a file exists, what a tool printed, how a process ended) come in
as closures or as plain values, so that each contract holds for every answer.

What is taken on trust is little: `percent_encoding::percent_decode_str` with `decode_utf8`,
`String::from_utf8_lossy`, `String::from_utf8` and `String::push`. Each is declared next to a
comment that says what is claimed of it.

`app/` is the program. `tests/` runs the library on concrete values.
