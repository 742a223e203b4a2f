//! The manual for agents.

use crate::json::{parsed_json, JsonView};
use vstd::prelude::*;
use vstd::string::StringExecFns;

verus! {

/// The workflow.
pub const PRELUDE: &'static str = r#"# agent-id — Portable agent identity registry

Agent ID provides the permanent human-readable identity for a coding-agent session. The identity is keyed by the harness session ID; never invent a name or register a second name for the same session.

## OMP workflow

The OMP extension automatically looks up or registers the current session, records its working directory and session file, and publishes its lifecycle signal under the `extensions.omp` namespace.

Call `agent-id current --json` to inspect the complete current assignment. The command uses `AGENT_ID_SESSION_ID` and never registers a missing identity. Call `agent-id discover` directly when you need to find other identities. Discover lists non-stopped registry assignments by default; outside Herdr this includes all matching assignments, while inside Herdr it is limited to identities matched to live Herdr agents. Use `agent-id discover --all` to include stopped and historical registry assignments; inside Herdr, runtime projections are added where available.

The top-level state is materialized from Herdr runtime state first, then the OMP lifecycle signal, and otherwise `unknown`. Lifecycle hooks publish `working`, `idle`, and `stopped` automatically. Use `agent-id annotate` to publish `waiting` or `blocked`, or to set or clear a summary or namespaced extension value when an explicit update is needed. Automatic summaries use completed agent turns; explicit updates remain authoritative.

## Neighbor selection

When a request needs another agent, use `agent-id discover` to choose an appropriate neighbor before initiating agent-to-agent communication. Prefer an agent whose current work is related to the request; use summaries and Herdr context as evidence, not proof. Do not contact arbitrary agents for independent reviews or unrelated requests merely because they are idle or discoverable. If no suitable neighbor is apparent, do not broadcast; ask the user or report that no suitable neighbor was found. An explicit recipient chosen by the user takes precedence. This project helps identify recipients; the communication mechanism handles delivery.

## CLI fallback

Direct CLI use is normally unnecessary under OMP. If the extension is unavailable, the CLI resolves a session from:

1. An explicit `SESSION_ID` argument or `--session-id ID`.
2. `AGENT_ID_SESSION_ID`.

A missing session ID is an error. A missing lookup is an error; register the session first.

## Examples

```bash
agent-id discover
agent-id discover --recent 24 --json
agent-id discover --all
agent-id register "$AGENT_ID_SESSION_ID"
agent-id register --family Oak "$AGENT_ID_SESSION_ID"
agent-id lookup "$AGENT_ID_SESSION_ID"
agent-id annotate --summary "Implementing checkout retries" "$AGENT_ID_SESSION_ID"
agent-id annotate --clear-summary "$AGENT_ID_SESSION_ID"
agent-id annotate --state waiting "$AGENT_ID_SESSION_ID"
agent-id annotate --state blocked "$AGENT_ID_SESSION_ID"
agent-id annotate --clear-state "$AGENT_ID_SESSION_ID"
agent-id annotate --cwd "$PWD" "$AGENT_ID_SESSION_ID"
agent-id annotate --clear-cwd "$AGENT_ID_SESSION_ID"
```

The default CLI output is the full name. Use `--json` when a tool needs the session ID, name parts, realm, slug, optional timestamped summary, materialized state, working directory, and created/updated timestamps."#;

/// The heading of the reference of the commands.
pub const COMMANDS_HEADING: &'static str = "\n\n## Commands\n\n";

/// The reference of the command `register`.
pub const REGISTER_REFERENCE: &'static str = r#"### `agent-id register [SESSION_ID]` — Allocate a permanent identity

```
--family NAME       Prefer a family name, useful for child agents
--realm NAME        Select a realm
--session-id ID     Provide an explicit session ID
--json              Print the complete assignment as JSON
```

Registration is idempotent: an existing session keeps its identity and receives a new `updated_at`.

"#;

/// The reference of the command `lookup`.
pub const LOOKUP_REFERENCE: &'static str = r#"### `agent-id lookup [IDENTIFIER]` — Read an existing identity

IDENTIFIER may be a session ID, canonical name, or slug. Without an explicit identifier, lookup uses the session environment.

```
--session-id ID     Provide an explicit session ID
--json              Print the complete assignment as JSON
```

Fails if the identifier has not been registered.

"#;

/// The reference of the command `current`.
pub const CURRENT_REFERENCE: &'static str = r#"### `agent-id current` — Read the current session identity

```
--json              Print the complete assignment as JSON
```

Uses `AGENT_ID_SESSION_ID` to identify the current session and never registers a missing identity.

"#;

/// The reference of the command `annotate`.
pub const ANNOTATE_REFERENCE: &'static str = r#"### `agent-id annotate [SESSION_ID]` — Update activity metadata

```
--summary TEXT         Set a concise summary (maximum 240 characters)
--clear-summary        Remove the summary
--state VALUE          Set working, idle, waiting, blocked, or stopped
--clear-state          Remove the activity state
--cwd PATH             Set the current working directory
--clear-cwd            Remove the current working directory
--extension OWNER=JSON Set namespaced unstructured JSON metadata; repeatable
--clear-extension NAME Remove one extension namespace; repeatable
--session-id ID        Provide the session ID explicitly
--json                 Print the complete assignment as JSON
```

Summary, state, working-directory, and extension metadata updates are independent; omitted fields remain unchanged. Agent ID timestamps mutable fields. Extension updates atomically replace one owner's JSON value.

"#;

/// The reference of the command `discover`.
pub const DISCOVER_REFERENCE: &'static str = r#"### `agent-id discover` — List identities

```
--limit N           Maximum records (default 20; zero means all)
--recent HOURS      Only include records updated within this many hours
--realm NAME        Only include records in this realm
--all               Include all registry assignments
--json              Print assignments and available runtime projections as JSON
```

Stopped assignments are excluded by default. Outside Herdr, discovery includes all matching non-stopped registry assignments. Inside Herdr, default discovery is limited to identities matched to live Herdr agents; use `--all` to include stopped and historical registry assignments. Results are sorted by `updated_at`, newest first. Inside Herdr, matching OMP session-file metadata adds a non-persistent live runtime projection.

"#;

/// The reference of the command `prune`.
pub const PRUNE_REFERENCE: &'static str = r#"### `agent-id prune` — Remove old identity assignments

```
--before TIMESTAMP  Delete records updated before this timestamp
--dry-run           Preview matching records without deleting
--json              Print the prune report as JSON
```

Pruning applies by default and removes both session records and matching name claims.

"#;

/// The reference of the command `prime`.
pub const PRIME_REFERENCE: &'static str = r#"### `agent-id prime` — Print this workflow manual

```
--prelude           Omit the command reference
--json              Wrap the documentation in a JSON object
```"#;

/// The reference of the commands.
pub open spec fn commands_reference() -> Seq<char> {
    REGISTER_REFERENCE@ + LOOKUP_REFERENCE@ + CURRENT_REFERENCE@ + ANNOTATE_REFERENCE@
        + DISCOVER_REFERENCE@ + PRUNE_REFERENCE@ + PRIME_REFERENCE@
}

/// The manual: the workflow, and the reference of the commands unless only the workflow
/// is asked for.
pub open spec fn manual(prelude_only: bool) -> Seq<char> {
    if prelude_only {
        PRELUDE@
    } else {
        PRELUDE@ + COMMANDS_HEADING@ + commands_reference()
    }
}

/// The manual.
pub fn generate(prelude_only: bool) -> (documentation: String)
    ensures
        documentation@ == manual(prelude_only),
{
    let mut documentation = PRELUDE.to_owned();
    if !prelude_only {
        documentation.append(COMMANDS_HEADING);
        documentation.append(REGISTER_REFERENCE);
        documentation.append(LOOKUP_REFERENCE);
        documentation.append(CURRENT_REFERENCE);
        documentation.append(ANNOTATE_REFERENCE);
        documentation.append(DISCOVER_REFERENCE);
        documentation.append(PRUNE_REFERENCE);
        documentation.append(PRIME_REFERENCE);
        assert(documentation@ =~= manual(false));
    }
    documentation
}

/// A hexadecimal digit.
pub open spec fn hex_digit(digit: int) -> char {
    if digit < 10 {
        (48 + digit) as char
    } else {
        (87 + digit) as char
    }
}

/// A character inside a JSON string.
pub open spec fn json_escaped(c: char) -> Seq<char> {
    if c == '"' {
        seq!['\\', '"']
    } else if c == '\\' {
        seq!['\\', '\\']
    } else if c == '\u{8}' {
        seq!['\\', 'b']
    } else if c == '\u{c}' {
        seq!['\\', 'f']
    } else if c == '\n' {
        seq!['\\', 'n']
    } else if c == '\r' {
        seq!['\\', 'r']
    } else if c == '\t' {
        seq!['\\', 't']
    } else if c <= '\u{1f}' {
        seq!['\\', 'u', '0', '0', hex_digit(c as int / 16), hex_digit(c as int % 16)]
    } else {
        seq![c]
    }
}

/// A text as a JSON string.
pub open spec fn json_quoted(text: Seq<char>) -> Seq<char> {
    seq!['"'] + text.map_values(|c: char| json_escaped(c)).flatten() + seq!['"']
}

/// A JSON object with one field, a text, over three lines.
pub open spec fn json_field(key: Seq<char>, text: Seq<char>) -> Seq<char> {
    "{\n  "@ + json_quoted(key) + ": "@ + json_quoted(text) + "\n}"@
}

/// Calls `serde_json::to_string_pretty` on an object with one field, a text. It does not
/// fail on strings, it escapes as `json_quoted` says, and `serde_json` reads the object
/// back.
#[verifier::external_body]
fn pretty_field(key: &str, text: &str) -> (document: String)
    ensures
        document@ == json_field(key@, text@),
        parsed_json(document@) is Ok,
        parsed_json(document@)->Ok_0 == JsonView::Object(
            Map::empty().insert(key@, JsonView::Text(text@)),
        ),
{
    let mut object = serde_json::Map::new();
    object.insert(key.to_owned(), serde_json::Value::String(text.to_owned()));
    serde_json::to_string_pretty(&object).unwrap()
}

/// The arguments of the command that prints the manual.
pub struct PrimeArgs {
    /// Whether only the workflow is printed.
    pub prelude: bool,
    /// Whether it is printed as a JSON object.
    pub json: bool,
}

/// What is printed of the manual.
pub open spec fn manual_printed(prelude_only: bool, json: bool) -> Seq<char> {
    if json {
        json_field("documentation"@, manual(prelude_only))
    } else {
        manual(prelude_only)
    }
}

/// What the command that prints the manual prints.
pub fn execute(args: &PrimeArgs) -> (text: String)
    ensures
        text@ == manual_printed(args.prelude, args.json),
        args.json ==> parsed_json(text@) == Ok::<JsonView, Seq<char>>(
            JsonView::Object(
                Map::empty().insert("documentation"@, JsonView::Text(manual(args.prelude))),
            ),
        ),
{
    let documentation = generate(args.prelude);
    if args.json {
        pretty_field("documentation", documentation.as_str())
    } else {
        documentation
    }
}

} // verus!
