# cce_designer

The decision logic of a node-based designer application, verified with
Verus: pane plates (collapse, detach, reattach, the corner menu and its
dock-tab rows), keyboard focus cycling, geometry display flags, the page
context's node chains, the network auto-layout, the command palette's fuzzy
ranking, the wrangle script sugar and channel paths, and the playbar
transport.

- `src/` is the verified library. Each module states its behaviour as
  `requires`/`ensures` over spec functions; the public proof functions
  (most of `src/laws.rs`, and the `pub proof fn`s at the end of
  `layout.rs`, `page.rs`, `command.rs`, `focus.rs`, `node_tree.rs`,
  `wrangle.rs`, `expr.rs` and `playbar.rs`) are the library's laws.
- `tests/` runs the library on concrete values.
- `app/` is the program around it: processes for detached panes, the page
  raster and PNG output, the playbar's frame counter, and the other
  floating-point work.
