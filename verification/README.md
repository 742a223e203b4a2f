# agent-id

Permanent, human-readable identities for coding-agent sessions, written and verified in Verus.

`src/` is the library. Everything that reads or writes a file, asks for the time or asks Herdr is a
*request* to the host (`host.rs`). A task, such as a registration, starts with a step; a step either
asks the host for something and says how the task goes on with the reply, or is the end of the task.

| Module | What it holds |
| --- | --- |
| `text`, `text_map`, `json`, `timestamp`, `order` | text, ordered maps, JSON values, instants, stable sorting |
| `activity`, `assignment` | activities, identities and the records in which they are kept |
| `identity`, `validation`, `error` | names and slugs, the values that are accepted, what goes wrong |
| `registry`, `registration`, `lookup`, `annotation`, `discovery`, `pruning`, `realm` | the registry and its tasks |
| `herdr` | where agents run |
| `commands`, `prime` | the commands, from arguments to what is printed |
| `manual` | what the manual that `prime` prints is known to say |
| `world`, `guarantees`, `outcomes` | a model of the host, and what the tasks and commands come to in it |
| `concurrency` | what holds when several processes have turns at one registry |

Every contract is stated over views. The tasks have exact step functions; `world` and `outcomes` prove
what a whole task comes to, and `guarantees` what holds of it: that an update leaves alone what it does
not mention, that an identity is found again by its session, that a discovery is exact, and that a
pruning reports what it removed, whatever goes wrong. In a consistent registry, where every session has
a record of its own and has claimed the name in it, no two sessions share a name, an identity is also
found by its name, and by its slug unless that is the ID of another session, and a pruning is exact. An
empty registry is consistent, and the tasks keep it so, given names that can be parts of a name.
`concurrency` proves that processes that take turns, in any order, agree on one realm, and that
registrations that take turns keep a registry consistent and give no two sessions one name.

`app/` is the program around the library: arguments, files, the Herdr process, JSON output and the
lists of names. `tests/` drives the tasks with a host in memory.
