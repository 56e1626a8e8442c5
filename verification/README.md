# bevy_granite (verified core)

The editor logic of the Granite scene editor for Bevy, written in Verus and
proved against its contracts.

* `src/hierarchy.rs` – the node-tree rows, ancestry (`descends_from`), the
  drop check, unfolding the path to an entity; `src/tree_laws.rs` – laws on
  them (a valid drop keeps a forest a forest, unfolding keeps ancestry and is
  idempotent, ancestry is transitive, chains end within the row count).
* `src/node_tree.rs` – the selection state machine of the tree tab.
* `src/asset_path.rs` – mapping asset paths to absolute paths and back
  (the platform's own path rules decide what is absolute and how paths
  join; results use `/`).
* `src/component_data.rs` – extracting one component's RON text from a
  serialized scene entry.
* `src/text_asset.rs` – text assets from file bytes.
* `src/gizmo.rs`, `src/vertex.rs`, `src/scene.rs` – gizmo input decisions,
  the start and end of a rotation drag (a drag runs exactly while a handle is
  locked), selection roots, vertex selection, children visibility, fallback
  materials.
* `src/events.rs` – the registry of UI-callable events and their dispatch.

`app/` holds the engine-facing glue (ECS systems, asset loaders, egui code,
file I/O and floating-point gizmo math), which delegates its decisions to the
library.
