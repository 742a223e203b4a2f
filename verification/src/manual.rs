//! What the manual for agents says.

use crate::prime::{
    commands_reference, manual, ANNOTATE_REFERENCE, COMMANDS_HEADING, CURRENT_REFERENCE,
    DISCOVER_REFERENCE, LOOKUP_REFERENCE, PRELUDE, PRIME_REFERENCE, PRUNE_REFERENCE,
    REGISTER_REFERENCE,
};
use vstd::prelude::*;

verus! {

/// Whether a text holds another one at some place.
pub open spec fn holds_at(text: Seq<char>, part: Seq<char>, at: int) -> bool {
    &&& 0 <= at
    &&& at + part.len() <= text.len()
    &&& text.subrange(at, at + part.len()) == part
}

/// Whether a text holds another one.
pub open spec fn contains_text(text: Seq<char>, part: Seq<char>) -> bool {
    exists|at: int| holds_at(text, part, at)
}

/// What a text holds, a longer one holds too.
proof fn lemma_holds_within(
    before: Seq<char>,
    text: Seq<char>,
    after: Seq<char>,
    part: Seq<char>,
    at: int,
)
    requires
        holds_at(text, part, at),
    ensures
        contains_text(before + text + after, part),
{
    let whole = before + text + after;
    let there = before.len() + at;
    assert(whole.subrange(there, there + part.len()) =~= text.subrange(at, at + part.len()));
    assert(holds_at(whole, part, there));
}

/// What the workflow says, and that it has no heading of commands.
#[verifier::rlimit(100)]
proof fn lemma_prelude()
    ensures
        holds_at(PRELUDE@, "agent-id register"@, 2547),
        holds_at(PRELUDE@, "agent-id lookup"@, 2642),
        holds_at(PRELUDE@, "agent-id annotate"@, 1231),
        holds_at(PRELUDE@, "agent-id current --json"@, 469),
        holds_at(PRELUDE@, "agent-id discover"@, 623),
        holds_at(PRELUDE@, "--all"@, 905),
        holds_at(PRELUDE@, "stopped"@, 710),
        holds_at(PRELUDE@, "appropriate neighbor"@, 1562),
        holds_at(PRELUDE@, "Do not contact arbitrary agents"@, 1749),
        forall|at: int| !#[trigger] holds_at(PRELUDE@, "## Commands"@, at),
{
    reveal_strlit(r#"# agent-id — Portable agent identity registry

Agent ID provides the permanent human-readable identity for a coding-agent session. The identity is keyed by the harness session ID; never invent a name or register a second name for the same session.

## OMP workflow

The OMP extension automatically looks up or registers the current session, records its working directory and session file, and publishes its lifecycle signal under the `extensions.omp` namespace.

Call `agent-id current --json` to inspect the complete current assignment. The command uses `AGENT_ID_SESSION_ID` and never registers a missing identity. Call `agent-id discover` directly when you need to find other identities. Discover lists non-stopped registry assignments by default; outside Herdr this includes all matching assignments, while inside Herdr it is limited to identities matched to live Herdr agents. Use `agent-id discover --all` to include stopped and historical registry assignments; inside Herdr, runtime projections are added where available.

The top-level state is materialized from Herdr runtime state first, then the OMP lifecycle signal, and otherwise `unknown`. Lifecycle hooks publish `working`, `idle`, and `stopped` automatically. Use `agent-id annotate` to publish `waiting` or `blocked`, or to set or clear a summary or namespaced extension value when an explicit update is needed. Automatic summaries use completed agent turns; explicit updates remain authoritative.

## Neighbor selection

When a request needs another agent, use `agent-id discover` to choose an appropriate neighbor before initiating agent-to-agent communication. Prefer an agent whose current work is related to the request; use summaries and Herdr context as evidence, not proof. Do not contact arbitrary agents for independent reviews or unrelated requests merely because they are idle or discoverable. If no suitable neighbor is apparent, do not broadcast; ask the user or report that no suitable neighbor was found. An explicit recipient chosen by the user takes precedence. This project helps identify recipients; the communication mechanism handles delivery.

## CLI fallback

Direct CLI use is normally unnecessary under OMP. If the extension is unavailable, the CLI resolves a session from:

1. An explicit `SESSION_ID` argument or `--session-id ID`.
2. `AGENT_ID_SESSION_ID`.

A missing session ID is an error. A missing lookup is an error; register the session first.

## Examples

```bash
agent-id discover
agent-id discover --recent 24 --json
agent-id discover --all
agent-id register "$AGENT_ID_SESSION_ID"
agent-id register --family Oak "$AGENT_ID_SESSION_ID"
agent-id lookup "$AGENT_ID_SESSION_ID"
agent-id annotate --summary "Implementing checkout retries" "$AGENT_ID_SESSION_ID"
agent-id annotate --clear-summary "$AGENT_ID_SESSION_ID"
agent-id annotate --state waiting "$AGENT_ID_SESSION_ID"
agent-id annotate --state blocked "$AGENT_ID_SESSION_ID"
agent-id annotate --clear-state "$AGENT_ID_SESSION_ID"
agent-id annotate --cwd "$PWD" "$AGENT_ID_SESSION_ID"
agent-id annotate --clear-cwd "$AGENT_ID_SESSION_ID"
```

The default CLI output is the full name. Use `--json` when a tool needs the session ID, name parts, realm, slug, optional timestamped summary, materialized state, working directory, and created/updated timestamps."#);
    reveal_strlit("agent-id register");
    assert(PRELUDE@.subrange(2547, 2564) =~= "agent-id register"@);
    reveal_strlit("agent-id lookup");
    assert(PRELUDE@.subrange(2642, 2657) =~= "agent-id lookup"@);
    reveal_strlit("agent-id annotate");
    assert(PRELUDE@.subrange(1231, 1248) =~= "agent-id annotate"@);
    reveal_strlit("agent-id current --json");
    assert(PRELUDE@.subrange(469, 492) =~= "agent-id current --json"@);
    reveal_strlit("agent-id discover");
    assert(PRELUDE@.subrange(623, 640) =~= "agent-id discover"@);
    reveal_strlit("--all");
    assert(PRELUDE@.subrange(905, 910) =~= "--all"@);
    reveal_strlit("stopped");
    assert(PRELUDE@.subrange(710, 717) =~= "stopped"@);
    reveal_strlit("appropriate neighbor");
    assert(PRELUDE@.subrange(1562, 1582) =~= "appropriate neighbor"@);
    reveal_strlit("Do not contact arbitrary agents");
    assert(PRELUDE@.subrange(1749, 1780) =~= "Do not contact arbitrary agents"@);
    assert(forall|i: int|
        0 <= i && i + 5 < PRELUDE@.len() ==> !(#[trigger] PRELUDE@[i] == '#' && PRELUDE@[i + 1]
            == '#' && PRELUDE@[i + 2] == ' ' && PRELUDE@[i + 3] == 'C' && PRELUDE@[i + 4] == 'o'));
    reveal_strlit("## Commands");
    assert forall|at: int| !#[trigger] holds_at(PRELUDE@, "## Commands"@, at) by {
        if holds_at(PRELUDE@, "## Commands"@, at) {
            let heading = PRELUDE@.subrange(at, at + 11);
            assert(heading[0] == '#');
            assert(heading[1] == '#');
            assert(heading[2] == ' ');
            assert(heading[3] == 'C');
            assert(heading[4] == 'o');
            assert(PRELUDE@[at] == '#');
        }
    }
}

/// What the reference of the command `annotate` says.
proof fn lemma_annotate_reference()
    ensures
        holds_at(ANNOTATE_REFERENCE@, "--state VALUE"@, 181),
        holds_at(ANNOTATE_REFERENCE@, "--extension OWNER=JSON"@, 418),
{
    reveal_strlit(r#"### `agent-id annotate [SESSION_ID]` — Update activity metadata

```
--summary TEXT         Set a concise summary (maximum 240 characters)
--clear-summary        Remove the summary
--state VALUE          Set working, idle, waiting, blocked, or stopped
--clear-state          Remove the activity state
--cwd PATH             Set the current working directory
--clear-cwd            Remove the current working directory
--extension OWNER=JSON Set namespaced unstructured JSON metadata; repeatable
--clear-extension NAME Remove one extension namespace; repeatable
--session-id ID        Provide the session ID explicitly
--json                 Print the complete assignment as JSON
```

Summary, state, working-directory, and extension metadata updates are independent; omitted fields remain unchanged. Agent ID timestamps mutable fields. Extension updates atomically replace one owner's JSON value.

"#);
    reveal_strlit("--state VALUE");
    assert(ANNOTATE_REFERENCE@.subrange(181, 194) =~= "--state VALUE"@);
    reveal_strlit("--extension OWNER=JSON");
    assert(ANNOTATE_REFERENCE@.subrange(418, 440) =~= "--extension OWNER=JSON"@);
}

/// What the reference of the command `discover` says.
proof fn lemma_discover_reference()
    ensures
        holds_at(DISCOVER_REFERENCE@, "Inside Herdr"@, 503),
{
    reveal_strlit(r#"### `agent-id discover` — List identities

```
--limit N           Maximum records (default 20; zero means all)
--recent HOURS      Only include records updated within this many hours
--realm NAME        Only include records in this realm
--all               Include all registry assignments
--json              Print assignments and available runtime projections as JSON
```

Stopped assignments are excluded by default. Outside Herdr, discovery includes all matching non-stopped registry assignments. Inside Herdr, default discovery is limited to identities matched to live Herdr agents; use `--all` to include stopped and historical registry assignments. Results are sorted by `updated_at`, newest first. Inside Herdr, matching OMP session-file metadata adds a non-persistent live runtime projection.

"#);
    reveal_strlit("Inside Herdr");
    assert(DISCOVER_REFERENCE@.subrange(503, 515) =~= "Inside Herdr"@);
}

/// The full manual starts with the workflow and the heading of the commands, which the
/// workflow alone does not have. It names the commands that read and write identities,
/// the options that publish activity, the states and what Herdr changes, and it says whom
/// not to contact.
pub proof fn lemma_manual()
    ensures
        holds_at(manual(false), manual(true) + "\n\n## Commands\n\n"@, 0),
        !contains_text(manual(true), "## Commands"@),
        contains_text(manual(false), "agent-id register"@),
        contains_text(manual(false), "agent-id lookup"@),
        contains_text(manual(false), "agent-id annotate"@),
        contains_text(manual(false), "agent-id current --json"@),
        contains_text(manual(false), "agent-id discover"@),
        contains_text(manual(false), "--all"@),
        contains_text(manual(false), "--state VALUE"@),
        contains_text(manual(false), "--extension OWNER=JSON"@),
        contains_text(manual(false), "Inside Herdr"@),
        contains_text(manual(false), "stopped"@),
        contains_text(manual(false), "appropriate neighbor"@),
        contains_text(manual(false), "Do not contact arbitrary agents"@),
{
    lemma_prelude();
    lemma_annotate_reference();
    lemma_discover_reference();
    let front = PRELUDE@ + COMMANDS_HEADING@;
    let before = front + (REGISTER_REFERENCE@ + LOOKUP_REFERENCE@ + CURRENT_REFERENCE@);
    let after = DISCOVER_REFERENCE@ + PRUNE_REFERENCE@ + PRIME_REFERENCE@;
    let last = PRUNE_REFERENCE@ + PRIME_REFERENCE@;
    assert(manual(false) =~= PRELUDE@ + (COMMANDS_HEADING@ + commands_reference()));
    assert(manual(false) =~= before + ANNOTATE_REFERENCE@ + after);
    assert(manual(false) =~= before + ANNOTATE_REFERENCE@ + DISCOVER_REFERENCE@ + last);
    assert(manual(false).subrange(0, front.len() as int) =~= front);
    let rest = COMMANDS_HEADING@ + commands_reference();
    let empty = Seq::<char>::empty();
    assert(empty + PRELUDE@ + rest =~= manual(false));
    lemma_holds_within(empty, PRELUDE@, rest, "agent-id register"@, 2547);
    lemma_holds_within(empty, PRELUDE@, rest, "agent-id lookup"@, 2642);
    lemma_holds_within(empty, PRELUDE@, rest, "agent-id annotate"@, 1231);
    lemma_holds_within(empty, PRELUDE@, rest, "agent-id current --json"@, 469);
    lemma_holds_within(empty, PRELUDE@, rest, "agent-id discover"@, 623);
    lemma_holds_within(empty, PRELUDE@, rest, "--all"@, 905);
    lemma_holds_within(empty, PRELUDE@, rest, "stopped"@, 710);
    lemma_holds_within(empty, PRELUDE@, rest, "appropriate neighbor"@, 1562);
    lemma_holds_within(empty, PRELUDE@, rest, "Do not contact arbitrary agents"@, 1749);
    lemma_holds_within(before, ANNOTATE_REFERENCE@, after, "--state VALUE"@, 181);
    lemma_holds_within(before, ANNOTATE_REFERENCE@, after, "--extension OWNER=JSON"@, 418);
    let before = before + ANNOTATE_REFERENCE@;
    lemma_holds_within(before, DISCOVER_REFERENCE@, last, "Inside Herdr"@, 503);
}

} // verus!
