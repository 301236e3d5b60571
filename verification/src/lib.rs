//! Chama: the editing logic of a graphical map editor, with its contracts.
//!
//! The framework part (plugins, shortkeys, toolbars, undo/redo history,
//! camera, grid and input validation) and the city-map part (street and
//! intersection topology, walks along street chains, freeform strokes, the
//! splitting plan of house polygons, editor modes) are kept free of geometry:
//! positions, angles and distances are computed by the embedding
//! application, which hands the library the plain values its decisions
//! depend on.

mod text;

pub mod input;
pub mod style;
pub mod ui;
pub mod dyn_children;
pub mod camera;
pub mod error;
pub mod toolbar;
pub mod order;
pub mod plugins;
pub mod app;
pub mod city;
pub mod grid;
pub mod history;
pub mod validation;

pub mod behaviour;

pub use behaviour::PluginExecutionBehaviour;
pub use text::{slugify, str_eq};
pub use camera::Camera;
pub use dyn_children::DynChildrenRenderer;
pub use input::Key;
pub use ui::default_snackbar_position;
pub use error::{EditorError, Shortkey};
pub use toolbar::{Toolbar, ToolbarButton, ToolbarPosition, Toolbars};
