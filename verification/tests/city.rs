use chama::city::editor::{systems_for_mode, Editor, SystemKind};
use chama::city::freeform::{brush_style, freeform_segments, FreeformBrush};
use chama::city::houses::{consecutive_pairs, split_plan, SplitItem};
use chama::city::style::{district_style, InteractiveElementStyle, InteractiveElementSystem};
use chama::city::systems::{IdleState, MapRenderSystem};
use chama::city::topology::{Direction, IntersectionLinks, Side, StreetGraph, StreetLinks};
use chama::city::walks::{connected_streets, enclosed, WalkError, WalkStep};
use chama::style::InformationLayer;

fn graph_with_intersections(ids: &[u128]) -> StreetGraph {
    let mut g = StreetGraph::new();
    for id in ids {
        g.add_intersection(IntersectionLinks::new(*id));
    }
    g
}

#[test]
fn connecting_streets_links_their_intersections() {
    let mut g = graph_with_intersections(&[1, 2, 3]);
    assert_eq!(g.connect(1, 2, 10), 10);
    assert_eq!(g.connect(2, 3, 11), 11);
    assert_eq!(g.streets_len(), 2);
    assert_eq!(g.intersections_len(), 3);
    let s = g.street(10).unwrap();
    assert_eq!((s.start, s.end), (1, 2));
    assert_eq!(s.get_next(Side::Left), None);
    assert_eq!(*g.intersection(2).unwrap().get_connected_streets(), vec![(Direction::In, 10), (Direction::Out, 11)]);
    assert_eq!(*g.intersection(1).unwrap().get_connected_streets(), vec![(Direction::Out, 10)]);
}

#[test]
fn a_created_street_gets_a_random_id() {
    let mut g = graph_with_intersections(&[1, 2]);
    let id = g.create_street_between(1, 2);
    assert_ne!(id, 0);
    assert_eq!((id >> 76) & 0xf, 4);
    assert_eq!(g.street(id).unwrap().end, 2);
}

#[test]
fn reordering_links_neighbours() {
    let mut g = graph_with_intersections(&[1, 2, 3]);
    g.connect(1, 2, 10);
    g.connect(2, 3, 11);
    assert!(!g.reorder(2, &vec![0, 0]));
    assert!(!g.reorder(2, &vec![0]));
    assert!(g.reorder(2, &vec![1, 0]));
    assert_eq!(*g.intersection(2).unwrap().get_connected_streets(), vec![(Direction::Out, 11), (Direction::In, 10)]);
    let s10 = g.street(10).unwrap();
    assert_eq!(s10.get_next(Side::Left), Some(11));
    assert_eq!(s10.get_next(Side::Right), Some(11));
    assert_eq!(s10.get_previous(Side::Left), None);
    let s11 = g.street(11).unwrap();
    assert_eq!(s11.get_previous(Side::Left), Some(10));
    assert_eq!(s11.get_previous(Side::Right), Some(10));
}

#[test]
fn a_street_alone_at_an_intersection_has_no_neighbour() {
    let mut g = graph_with_intersections(&[1, 2]);
    g.connect(1, 2, 10);
    assert!(g.reorder(2, &vec![0]));
    let s = g.street(10).unwrap();
    assert_eq!(s.get_next(Side::Left), None);
    assert_eq!(s.get_next(Side::Right), None);
}

#[test]
fn removing_a_street_removes_intersections_left_empty() {
    let mut g = graph_with_intersections(&[1, 2, 3]);
    g.connect(1, 2, 10);
    g.connect(2, 3, 11);
    let removal = g.remove_street(10);
    assert_eq!(removal.street.unwrap().id, 10);
    assert_eq!(removal.removed_intersections, vec![1]);
    assert_eq!(removal.updated_intersections, vec![2]);
    assert!(g.street(10).is_none());
    assert!(g.intersection(1).is_none());
    assert_eq!(*g.intersection(2).unwrap().get_connected_streets(), vec![(Direction::Out, 11)]);
    let none = g.remove_street(10);
    assert!(none.street.is_none());
    assert!(none.removed_intersections.is_empty());
    assert!(none.updated_intersections.is_empty());
    g.remove_street(11);
    assert!(g.is_empty());
}

#[test]
fn splitting_a_street_inserts_an_intersection() {
    let mut g = graph_with_intersections(&[1, 2]);
    g.connect(1, 2, 10);
    g.split_street(10, 5, 20);
    let s10 = g.street(10).unwrap();
    assert_eq!((s10.start, s10.end), (1, 5));
    let s20 = g.street(20).unwrap();
    assert_eq!((s20.start, s20.end), (5, 2));
    assert_eq!(*g.intersection(5).unwrap().get_connected_streets(), vec![(Direction::In, 10), (Direction::Out, 20)]);
    assert_eq!(*g.intersection(2).unwrap().get_connected_streets(), vec![(Direction::In, 20)]);
}

#[test]
fn reconnecting_the_end_of_a_street() {
    let mut g = graph_with_intersections(&[1, 2, 3]);
    g.connect(1, 2, 10);
    g.reconnect_end(10, 2, 3);
    assert_eq!(g.street(10).unwrap().end, 3);
    assert!(g.intersection(2).unwrap().get_connected_streets().is_empty());
    assert_eq!(*g.intersection(3).unwrap().get_connected_streets(), vec![(Direction::In, 10)]);
    // Where the intersection to leave does not exist, only the new end changes.
    g.reconnect_end(10, 99, 2);
    assert_eq!(g.street(10).unwrap().end, 2);
    assert_eq!(*g.intersection(3).unwrap().get_connected_streets(), vec![(Direction::In, 10)]);
    assert_eq!(*g.intersection(2).unwrap().get_connected_streets(), vec![(Direction::In, 10)]);
}

#[test]
fn intersection_links_remove_the_first_connection() {
    let mut i = IntersectionLinks::new(7);
    i.add_incoming_street(1);
    i.add_outgoing_street(2);
    i.add_outgoing_street(1);
    i.remove_connected_street(1);
    assert_eq!(*i.get_connected_streets(), vec![(Direction::Out, 2), (Direction::Out, 1)]);
    i.remove_connected_street(9);
    assert_eq!(i.get_connected_streets().len(), 2);
    assert!(i.set_order(&vec![1, 0]));
    assert_eq!(*i.get_connected_streets(), vec![(Direction::Out, 1), (Direction::Out, 2)]);
    assert!(!i.set_order(&vec![1, 1]));
    assert_eq!(Side::Left.opposite(), Side::Right);
}

#[test]
fn the_chain_of_a_street_ends_where_more_streets_meet() {
    let mut g = graph_with_intersections(&[1, 2, 3]);
    g.connect(1, 2, 10);
    g.connect(2, 3, 11);
    g.reorder(2, &vec![0, 1]);
    assert_eq!(connected_streets(&g, 10), Ok(vec![10, 11]));
    assert_eq!(connected_streets(&g, 11), Ok(vec![11]));
    assert_eq!(connected_streets(&g, 99), Err(WalkError::BrokenLink));
}

fn triangle() -> StreetGraph {
    let mut g = graph_with_intersections(&[1, 2, 3]);
    g.connect(1, 2, 10);
    g.connect(2, 3, 11);
    g.connect(3, 1, 12);
    g.reorder(1, &vec![0, 1]);
    g.reorder(2, &vec![0, 1]);
    g.reorder(3, &vec![0, 1]);
    g
}

#[test]
fn a_triangle_of_streets_encloses_an_area() {
    let g = triangle();
    let (closed, steps) = enclosed(Side::Left, 10, &g).unwrap();
    assert!(closed);
    assert_eq!(
        steps,
        vec![
            WalkStep { side: Side::Left, street: 10, forward: true },
            WalkStep { side: Side::Left, street: 11, forward: true },
            WalkStep { side: Side::Left, street: 12, forward: true },
        ]
    );
}

#[test]
fn an_open_path_encloses_nothing() {
    let mut g = graph_with_intersections(&[1, 2, 3]);
    g.connect(1, 2, 10);
    g.connect(2, 3, 11);
    g.reorder(2, &vec![0, 1]);
    let (closed, steps) = enclosed(Side::Left, 10, &g).unwrap();
    assert!(!closed);
    assert_eq!(steps.len(), 2);
}

#[test]
fn a_walk_that_circles_elsewhere_is_endless() {
    let mut g = StreetGraph::new();
    let mut a = StreetLinks::new(1, 100, 101);
    a.set_next(Side::Left, Some(2));
    let mut b = StreetLinks::new(2, 102, 103);
    b.set_next(Side::Left, Some(3));
    let mut c = StreetLinks::new(3, 104, 105);
    c.set_next(Side::Left, Some(2));
    g.add_street(a);
    g.add_street(b);
    g.add_street(c);
    assert_eq!(enclosed(Side::Left, 1, &g), Err(WalkError::Endless));
    let mut d = StreetLinks::new(4, 106, 107);
    d.set_next(Side::Left, Some(42));
    g.add_street(d);
    assert_eq!(enclosed(Side::Left, 4, &g), Err(WalkError::BrokenLink));
}

#[test]
fn modes_select_their_tools() {
    assert_eq!(systems_for_mode(1), vec![SystemKind::CreateStreet]);
    assert_eq!(systems_for_mode(2), vec![SystemKind::CreateFreeFormStreet]);
    assert_eq!(systems_for_mode(3), vec![SystemKind::DeleteStreet]);
    assert_eq!(systems_for_mode(4), vec![SystemKind::CreateDistrict]);
    assert_eq!(systems_for_mode(5), vec![SystemKind::CreateFreeFormStreet]);
    assert_eq!(systems_for_mode(6), vec![SystemKind::DeleteDistrict]);
    assert_eq!(systems_for_mode(7), vec![SystemKind::MoveControl, SystemKind::BoxSelect]);
    assert_eq!(systems_for_mode(8), vec![SystemKind::BoxSelect]);
    assert!(systems_for_mode(0).is_empty());
    let mut editor = Editor::new();
    assert!(editor.switch_to_mode(7));
    assert_eq!(editor.active_systems, vec![SystemKind::MoveControl, SystemKind::BoxSelect]);
    assert!(!editor.switch_to_mode(9));
    assert!(editor.active_systems.is_empty());
}

#[test]
fn the_debug_layer_is_switched_on_once() {
    let mut editor = Editor::new();
    editor.set_enable_debug_information(true);
    editor.set_enable_debug_information(true);
    assert_eq!(editor.additional_information_layers, vec![InformationLayer::Debug]);
    editor.set_enable_debug_information(false);
    assert!(editor.additional_information_layers.is_empty());
    editor.set_enable_debug_information(false);
    assert!(editor.additional_information_layers.is_empty());
}

#[test]
fn the_middle_button_moves_the_camera() {
    let mut editor = Editor::new();
    assert!(editor.mouse_move(4, 4));
    assert!(editor.mouse_down(0));
    assert!(!editor.camera.active);
    assert!(!editor.mouse_down(1));
    assert!(editor.camera.active);
    assert!(!editor.mouse_move(5, -3));
    assert_eq!((editor.camera.x, editor.camera.y), (5, -3));
    assert!(editor.mouse_up(2));
    assert!(editor.camera.active);
    assert!(!editor.mouse_up(1));
    assert!(!editor.camera.active);
    assert!(editor.mouse_move(5, 5));
    assert_eq!((editor.camera.x, editor.camera.y), (5, -3));
}

#[test]
fn grid_settings_of_the_editor() {
    let mut editor = Editor::new();
    assert!(!editor.grid_enabled);
    editor.set_grid_enabled(true);
    editor.set_grid_offset(120);
    editor.set_grid_subdivisions(0);
    assert!(editor.grid_enabled);
    assert_eq!(editor.grid.offset(), 120);
    assert_eq!(editor.grid.subdivisions(), 1);
    editor.set_grid_subdivisions(6);
    assert_eq!(editor.grid.subdivisions(), 6);
    editor.set_render_streets(false);
    editor.set_render_intersections(false);
    assert!(!editor.render_streets && !editor.render_intersections);
}

#[test]
fn freeform_strokes_skip_points_on_streets() {
    assert_eq!(freeform_segments(&vec![true, true, false, true]), vec![(1, 2), (2, 3)]);
    assert_eq!(freeform_segments(&vec![false, true]), vec![(0, 1)]);
    assert_eq!(freeform_segments(&vec![true, false, false]), vec![(0, 1), (1, 2)]);
    assert_eq!(freeform_segments(&vec![true]), vec![]);
    assert_eq!(freeform_segments(&vec![true, true, true]), vec![(0, 1), (1, 2)]);
}

#[test]
fn the_brush_records_while_the_left_button_is_held() {
    let mut brush = FreeformBrush::new();
    assert!(!brush.records());
    brush.mouse_down(2);
    assert!(!brush.records());
    brush.mouse_down(0);
    assert!(brush.records());
    assert!(!brush.mouse_up(1));
    assert!(brush.records());
    assert!(brush.mouse_up(0));
    assert!(!brush.records());
    let style = brush_style();
    assert_eq!(style.border_width, 15);
    assert_eq!(style.border_color, "#2A2A2B");
}

#[test]
fn consecutive_pairs_of_crossings() {
    assert_eq!(consecutive_pairs(&vec![1, 2, 3]), vec![(1, 2), (2, 3)]);
    assert_eq!(consecutive_pairs(&vec![5]), vec![]);
    assert_eq!(consecutive_pairs::<u8>(&vec![]), vec![]);
}

#[test]
fn a_polygon_crossed_twice_splits_in_two() {
    let plan = split_plan(4, &vec![0, 2]);
    assert_eq!(
        plan,
        vec![
            vec![SplitItem::Corner(0), SplitItem::Crossing(0), SplitItem::Crossing(1), SplitItem::Corner(3)],
            vec![SplitItem::Crossing(0), SplitItem::Corner(1), SplitItem::Corner(2), SplitItem::Crossing(1)],
        ]
    );
    assert_eq!(split_plan(3, &vec![]), vec![vec![SplitItem::Corner(0), SplitItem::Corner(1), SplitItem::Corner(2)]]);
}

#[test]
fn city_styles() {
    let style = InteractiveElementStyle::default();
    assert_eq!(style.normal.border_width, 1);
    assert_eq!(style.style_for(InteractiveElementSystem::Normal).background_color, "#2A2A2B");
    assert_eq!(style.style_for(InteractiveElementSystem::Hover).background_color, "#1e88e5");
    let district = district_style();
    assert_eq!(district.normal.background_color, "rgba(30, 136, 229, 0.4)");
    assert_eq!(district.normal.border_width, 0);
    let _idle = IdleState::default();
    let _render = MapRenderSystem::new();
}
