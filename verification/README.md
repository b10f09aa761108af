# kimi_code_extra

Two tools for a coding agent, with their decisions verified by Verus:

- `AgentSwarm` runs one agent per item and reports on all of them.
- `FetchURL` fetches a public web page and returns its readable text.

`src/` is the verified library:

| module    | what it holds                                                        |
|-----------|----------------------------------------------------------------------|
| `tool`    | the tools as the host sees them: names, payloads, outputs             |
| `swarm`   | the agent calls of a swarm, their order, and the report               |
| `web_url` | URLs, taken apart                                                     |
| `resolve` | which hosts the fetch may connect to                                  |
| `fetch`   | a fetch from step to step: host checks, requests, redirects           |
| `body`    | response bodies, read up to a limit                                   |
| `page`    | the readable text of a page                                           |
| `text`    | operations on text                                                    |
| `error`   | the error of a tool call, and the messages of the fetch               |

A swarm and a fetch are state machines: each step names one thing to do outside
and takes the outcome. What `resolve` decides rests on three answers from outside:
whether a host name spells an IP address, which addresses a lookup finds for it,
and whether an address is non-public. The laws in `resolve` and `fetch` hold for
all answers, also where they change from one request of a fetch to the next.

`app/` does the outside work: deserialization, name lookups, HTTP requests, and
the calls into the program that hosts the tools.
