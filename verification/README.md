# tyclaw

An agent for a company: it answers in a terminal and behind DingTalk, works with
tools in a workspace of its own for every user or conversation, remembers what
was said, and hands larger tasks to agents below it. A gateway spreads the
messages of DingTalk over several instances.

The library in `src/` holds what the agent decides and computes, with contracts
that Verus proves. What it needs from the clock, the disk, the network or the
model comes in as plain values.

| Module          | What it holds                                                    |
|-----------------|------------------------------------------------------------------|
| `agent`         | the loop of the agent, its tools, phases and diagnostics         |
| `prompt`        | prompt texts and how a prompt is put together                    |
| `orchestration` | sessions, histories, requests, budgets, the clearing of idle ones |
| `subtasks`      | plans of subtasks and the order in which they run                |
| `memory`        | the long-term memory                                             |
| `control`       | workspaces, their directories and members                        |
| `channel`       | the terminal and DingTalk                                        |
| `gateway`       | routing between DingTalk and the instances                       |
| `programs`      | how the programs start and what they show                        |
| `text`, `json`, `table`, `order`, `seqs`, `message` | what the others share        |

`app/` holds the programs: `run` for the agent, `client` for a single question
and `gateway`. They read, send and print, and do what the library decides.

`tests/` runs the library on concrete values.
