# syncbot

Navigation, claims and scheduling for several robots that share a workspace. The
logic is written in Verus: what each function does is stated in its contract and
proved.

## Concepts

- **Workspace**: a tree of zones and a graph of nodes and edges, with text
  properties. Those under `traffic.*` state how robots may use what they are on.
- **Index**: finds zones, nodes and edges, walks the zone tree, and checks the
  workspace.
- **Policy**: what the properties of zones and edges mean, how policies merge, and
  what is wrong with properties.
- **Route**: the shortest way from node to node, with or without heeding blocks
  and penalties; a plan, or what stood in the way.
- **Claim and lease**: a claim asks for zones, nodes or edges; a lease is granted.
  The claim manager decides whether a claim is compatible with what is held.
- **Coordinator**: the robots, their keys, signs of life and progress, their claims
  within a horizon, and whether a route proceeds, queues or has to be replanned.
- **VDA 5050**: orders and states in the shape of that interface.

## Layout

| Path | What stands there |
|---|---|
| `src/text.rs`, `src/number.rs`, `src/properties.rs`, `src/views.rs` | texts, quantities, properties, and views of them |
| `src/ids.rs`, `src/guid.rs`, `src/key.rs`, `src/error.rs` | identifiers, keys, errors |
| `src/policy/` | keywords, reading, checking and merging of traffic policies |
| `src/workspace.rs`, `src/index/`, `src/draft.rs` | the workspace, its index, and graphs of named nodes |
| `src/route/` | steps over the graph, the search, plans, failures |
| `src/claim/` | claims, leases, conflicts, capacity |
| `src/robot.rs`, `src/coordinator/` | robots, schedules, horizons, right of way, the fleet |
| `src/persist.rs` | images of the state |
| `src/vda/` | messages |
| `src/codes.rs`, `src/words.rs`, `src/startup.rs` | numbers and words at the edges, and what a server decides when it starts |
| `tests/` | tests on concrete values |
| `app/` | the program: files, signals, the interface for C, JSON, floating point |

What holds of several functions together stands in the `laws.rs` of a module, or
beside the functions that it is about, as a public proof function.

## Quantities

A quantity is the bit pattern of a 64-bit floating-point number (`number::Real`).
The library compares quantities and rounds them to ticks. Arithmetic on them comes
from the caller as a function: `plus` and `subtract` work on costs, `price` says
what one term of a penalty comes to, `scale` turns a cost into ticks. What is added
to what, and in which order, stands in the contracts, which hold for every such
function that depends on its arguments alone.

## What is trusted

- `char::is_whitespace` and `String::push` of the standard library, specified in
  `src/text.rs`.
- `uuid::Uuid::parse_str` and the text of a `uuid::Uuid`, wrapped in `src/guid.rs`.
