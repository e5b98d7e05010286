# workspace_colours

Per-workspace colour families for a terminal client's sidebar and tabs.

`src/` is the verified library: the SplitMix64 stream (`rng`), tab colour
state and identity-preserving reconciliation (`allocator`), conflict repair
bookkeeping (`repair`), rendered colour values and styles (`colour`), painting
styles onto a cell buffer (`paint`), and per-endpoint decisions such as
which stored workspaces a snapshot drops or opens, theme pools, host colour
reports, which row is selected, and which workspace tab owns the agent shown
in a pane on any endpoint (`world`).

`app/` holds what runs around it: floating-point colour science (CIEDE2000,
OKLCH gamut mapping, contrast), candidate bank generation and scoring, the
JSON checkpoint writer, and conversions to and from ratatui.
