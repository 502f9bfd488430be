# mechanix

The logic of a small Wayland client toolkit, written in Verus: every
function in `src/` carries a contract, and Verus proves each body against
it.

## Layout

- `src/wayland/`: the wire format (reading and writing arguments, framing
  messages), the object table of a connection, the registry of globals,
  the core, `xdg_shell` and layer-shell requests and events, and the names that
  protocol descriptions turn into.
- `src/ring.rs`: the bookkeeping of operations in flight on an io_uring,
  by token.
- `src/interactivity.rs`: pointer and touch contacts, capture, and the
  nodes entered and left.
- `src/presentation/`: the seat, the frame loop of a window, and opening
  and closing toplevels and layer windows.
- `src/layout.rs`, `src/render.rs`, `src/theme/`, `src/gles.rs`: layout
  roots, the packed command flags and damage history, the colour schemes
  and typography roles, and the device's page table and upload runs.
- `tests/`: ordinary Rust tests against the library.
- `app/`: what runs around the library and is not verified: the io_uring
  and socket calls, the EGL/GBM/GL setup and render targets, and the parts that compute in
  floating point.

Laws that span several calls are public proof functions named `law_*`
(and a few `lemma_*`), next to the functions they speak of.
