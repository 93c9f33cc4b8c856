# tui_logic

Verified policies of a terminal chat client, written in Verus:

- `theme` — embedded syntax-theme names, the bundled terminal palettes (parsing, lookup and
  recolouring of the ANSI theme), theme resolution and validation, and the picker listing.
- `textarea` — a UTF-8 text buffer with atomic elements, mouse selection and hit testing.
- `ui` — composer frame geometry, mouse routing, the copy toast, the agents-overview error
  view and transparent backgrounds.
- `transparency` — the step-by-step decisions of turning full transparency on or off,
  including rollback when the redraw fails.
- `guardian` — the configuration policy of a guardian session.

`app/` holds the terminal side: conversions to and from the terminal and highlighting
libraries, file access, drawing, and the loop that carries out a transparency update.

Two functions around the guardian session are not here, because they only build or fill
in types of crates that are not available (the host's configuration crate and the protocol
crate): the builder that applies the guardian overrides to the host's session
configuration, and the builder that turns a guardian turn into a protocol turn request.
The policy they carry (model, retries, approval, permissions, disabled features) is
`guardian::reviewer_config_overrides`.
