//! Verified editor logic for the Granite scene editor: the node-tree
//! hierarchy and its selection state machine, asset path mapping, scene
//! component text extraction, gizmo input decisions and the registry of
//! UI-callable events.

pub mod entity;
pub mod hierarchy;
pub mod tree_laws;
pub mod node_tree;
pub mod asset_path;
pub mod component_data;
pub mod text_asset;
pub mod gizmo;
pub mod vertex;
pub mod events;
pub mod scene;
