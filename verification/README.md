# Runtime Gatekeeper

A registry and supervisor for the services of one workstation. An agent asks for
a runtime by naming the services that its job needs; the supervisor answers
`READY` with a lease, or says what stands in the way. It starts what it may
start, never stops what a job holds, and never takes over what it did not start.

The rules stand in `src/`, a library whose every function is verified with Verus.
`app/` is the program around it: command line, files, sockets, processes.

## How the two work together

The library decides and the program acts. `Engine::call` takes a tool's name and
arguments and returns a `Progress`: either the result, or an `Action` together
with the `Task` that waits for it. The program performs the action and hands what
came of it to `Engine::resume`, until the call is over. Every contract is a
statement about these steps, so what is proved holds whatever the machine
answers.

## Modules

| Module | What it holds |
|---|---|
| `text`, `path`, `ids` | texts, paths, and ordered maps keyed by texts |
| `json`, `show` | JSON values, and how the records look as JSON |
| `config`, `depend`, `validate`, `roster` | service definitions, their dependencies, and the check that they pass |
| `model` | requests, jobs, processes, and the memory gate |
| `platform`, `sight` | what readings of the machine mean |
| `attribution` | which service a process belongs to |
| `fleet`, `engine`, `views`, `gate` | the state, the services as they stand, and what memory is free |
| `action`, `stop`, `start` | stopping and starting one service, step by step |
| `assess`, `request` | whether a request can be met, and the work that it takes |
| `call` | all tools |
| `protocol`, `http` | JSON-RPC, routing, and the line bridge |
| `fresh`, `denial` | random ids, and why a call is refused |

Functions whose names begin with `law_` state what holds of the library as a
whole, each with its meaning in words.

## What is taken on trust

Calls into `serde_json` (reading and writing values, taking them apart and putting
them together, copying numbers), `uuid` (random ids) and `String::from_utf8` are
believed to do what their wrappers say; these are the only items that are not
proved.
