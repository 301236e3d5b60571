//! The city map: the topology of streets and intersections, walks along
//! chains of streets, freeform strokes, the splitting plan of house
//! polygons, the styles of map elements, and the map editor's own state.

pub mod ids;
pub mod topology;
pub mod walks;
pub mod editor;
pub mod style;
pub mod systems;
pub mod freeform;
pub mod houses;
