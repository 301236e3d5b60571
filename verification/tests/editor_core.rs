use chama::app::App;
use chama::behaviour::PluginExecutionBehaviour;
use chama::error::EditorError;
use chama::plugins::{enabled_plugins, get_plugin, get_plugin_mut, PluginEntry, PluginRegistry};
use chama::toolbar::{Toolbar, ToolbarButton, ToolbarPosition, Toolbars};

fn keys(names: &[&str]) -> Vec<String> {
    names.iter().map(|k| k.to_string()).collect()
}

#[test]
fn registry_orders_plugins_by_id() {
    let mut plugins = PluginRegistry::new();
    plugins.insert(PluginEntry::new("undo", PluginExecutionBehaviour::Always, true));
    plugins.insert(PluginEntry::new("camera", PluginExecutionBehaviour::NonRestricted, false));
    plugins.insert(PluginEntry::new("grid", PluginExecutionBehaviour::Once, true));
    assert_eq!(plugins.len(), 3);
    assert_eq!(plugins.entry(0).id(), "camera");
    assert_eq!(plugins.entry(1).id(), "grid");
    assert_eq!(plugins.entry(2).id(), "undo");
    assert!(plugins.contains("grid"));
    assert!(!plugins.contains("redo"));
    assert_eq!(enabled_plugins(&plugins), vec!["grid", "undo"]);
}

#[test]
fn inserting_an_id_again_replaces_the_plugin() {
    let mut plugins = PluginRegistry::new();
    plugins.insert(PluginEntry::new("grid", PluginExecutionBehaviour::Once, true));
    plugins.insert(PluginEntry::new("grid", PluginExecutionBehaviour::Exclusive, false));
    assert_eq!(plugins.len(), 1);
    let grid = get_plugin(&plugins, "grid").unwrap();
    assert_eq!(grid.execution_behaviour(), PluginExecutionBehaviour::Exclusive);
    assert!(!grid.enabled());
    assert!(get_plugin(&plugins, "camera").is_none());
}

#[test]
fn get_plugin_mut_changes_the_plugin_state() {
    let mut plugins = PluginRegistry::new();
    plugins.insert(PluginEntry::new("grid", PluginExecutionBehaviour::Once, false));
    match get_plugin_mut(&mut plugins, "grid") {
        Some(state) => state.enabled = true,
        None => panic!("grid is registered"),
    }
    assert!(plugins.get("grid").unwrap().enabled());
    assert!(get_plugin_mut(&mut plugins, "camera").is_none());
}

#[test]
fn activating_an_exclusive_plugin_disables_the_other_exclusive_one() {
    let mut plugins = PluginRegistry::new();
    plugins.insert(PluginEntry::new("create_street", PluginExecutionBehaviour::Exclusive, true));
    plugins.insert(PluginEntry::new("delete_street", PluginExecutionBehaviour::Exclusive, false));
    plugins.insert(PluginEntry::new("camera", PluginExecutionBehaviour::NonRestricted, true));
    assert!(plugins.activate("delete_street"));
    assert_eq!(enabled_plugins(&plugins), vec!["camera", "delete_street"]);
    assert!(!plugins.activate("unknown"));
    assert_eq!(enabled_plugins(&plugins), vec!["camera", "delete_street"]);
    assert!(plugins.set_enabled("camera", false));
    assert_eq!(enabled_plugins(&plugins), vec!["delete_street"]);
    assert!(!plugins.set_enabled("unknown", false));
}

#[test]
fn a_shortkey_can_be_registered_once() {
    let mut app = App::new();
    assert!(app.add_shortkey("undo", keys(&["Control", "z"])).is_ok());
    assert!(app.has_shortkey(keys(&["Control", "z"])));
    match app.add_shortkey("redo", keys(&["Control", "z"])) {
        Err(EditorError::ShortkeyExists { shortkey }) => assert_eq!(shortkey, keys(&["Control", "z"])),
        _ => panic!("the shortkey is registered already"),
    }
    assert!(app.add_shortkey("undo", keys(&["Control", "u"])).is_ok());
    assert!(!app.has_shortkey(keys(&["Control", "y"])));
}

#[test]
fn pressed_keys_trigger_shortkeys() {
    let mut app = App::new();
    app.add_shortkey("undo", keys(&["Control", "z"])).unwrap();
    app.add_shortkey("save", keys(&["s"])).unwrap();
    assert!(app.key_down("Control".to_string()).is_empty());
    assert!(app.key_down("Control".to_string()).is_empty());
    assert_eq!(app.key_down("z".to_string()), vec![keys(&["Control", "z"])]);
    app.key_up(&"z".to_string());
    assert_eq!(app.key_down("s".to_string()), vec![keys(&["s"])]);
    app.key_up(&"s".to_string());
    app.key_up(&"Control".to_string());
    assert!(app.key_down("z".to_string()).is_empty());
    assert_eq!(app.shortkey_pressed(&keys(&["Control", "z"])), vec!["undo"]);
    assert!(app.shortkey_pressed(&keys(&["Control", "q"])).is_empty());
}

#[test]
fn app_plugins_are_activated_through_the_registry() {
    let mut app = App::new();
    app.add_plugin(PluginEntry::new("b", PluginExecutionBehaviour::Exclusive, true));
    app.add_plugin(PluginEntry::new("a", PluginExecutionBehaviour::Exclusive, false));
    assert!(app.activate_plugin("a"));
    assert_eq!(app.enabled_plugins(), vec!["a"]);
    assert!(app.set_plugin_enabled("b", true));
    assert_eq!(app.enabled_plugins(), vec!["a", "b"]);
    assert_eq!(app.plugins().len(), 2);
}

#[test]
fn toolbars_are_found_by_id() {
    let mut toolbars = Toolbars::new();
    assert_eq!(toolbars.add_toolbar("primary.undo_redo", ToolbarPosition::Left).unwrap(), 0);
    assert_eq!(toolbars.add_toolbar("modes.toolbar", ToolbarPosition::Left).unwrap(), 1);
    assert_eq!(toolbars.add_toolbar("view", ToolbarPosition::Top).unwrap(), 0);
    match toolbars.add_toolbar("view", ToolbarPosition::Bottom) {
        Err(EditorError::ToolbarExists { id }) => assert_eq!(id, "view"),
        _ => panic!("the toolbar exists"),
    }
    assert!(toolbars.toolbars(ToolbarPosition::Bottom).is_none());
    match toolbars.index_and_position_of_toolbar("modes.toolbar") {
        Ok((position, index)) => {
            assert_eq!(position, ToolbarPosition::Left);
            assert_eq!(index, 1);
        },
        Err(_) => panic!("the toolbar exists"),
    }
    match toolbars.index_and_position_of_toolbar("missing") {
        Err(EditorError::ToolbarDoesNotExists { id }) => assert_eq!(id, "missing"),
        _ => panic!("no such toolbar"),
    }
}

#[test]
fn buttons_are_added_to_the_named_toolbar() {
    let mut toolbars = Toolbars::new();
    toolbars.add_toolbar("primary.undo_redo", ToolbarPosition::Left).unwrap();
    assert!(toolbars.add_button("primary.undo_redo", "undo", "undo", "Undo".to_string(), true).is_ok());
    assert!(toolbars.add_button("primary.undo_redo", "redo", "redo", "Redo".to_string(), false).is_ok());
    match toolbars.add_button("missing", "x", "x", "X".to_string(), false) {
        Err(EditorError::ToolbarDoesNotExists { id }) => assert_eq!(id, "missing"),
        _ => panic!("no such toolbar"),
    }
    let left = toolbars.toolbars(ToolbarPosition::Left).unwrap();
    assert_eq!(left.len(), 1);
    assert_eq!(left[0].buttons.len(), 2);
    assert_eq!(left[0].buttons[0].identifier, "undo");
    assert!(left[0].buttons[0].toggle);
    assert_eq!(left[0].buttons[1].tooltip, "Redo");
    assert!(!left[0].buttons[1].toggle);
}

#[test]
fn toolbar_positions_name_their_containers() {
    assert_eq!(ToolbarPosition::Left.to_string(), "left_primary_toolbar");
    assert_eq!(ToolbarPosition::Right.to_string(), "right_primary_toolbar");
    assert_eq!(ToolbarPosition::Top.to_string(), "top_primary_toolbar");
    assert_eq!(ToolbarPosition::Bottom.to_string(), "bottom_primary_toolbar");
}

#[test]
fn plugin_toolbars_merge_into_the_top_toolbars() {
    let mut toolbars = Toolbars::new();
    toolbars.add_toolbar("modes.toolbar", ToolbarPosition::Top).unwrap();
    let mut modes = Toolbar::new("modes.toolbar");
    modes.add_button("edit", "create_street", "Create street".to_string()).unwrap();
    assert!(toolbars.merge_toolbar(modes));
    let mut extra = Toolbar::new("extra");
    extra.buttons.push(ToolbarButton { icon: "grid", identifier: "grid", tooltip: "Grid".to_string(), toggle: true });
    assert!(!toolbars.merge_toolbar(extra));
    let top = toolbars.toolbars(ToolbarPosition::Top).unwrap();
    assert_eq!(top.len(), 2);
    assert_eq!(top[0].buttons.len(), 1);
    assert_eq!(top[0].buttons[0].identifier, "create_street");
    assert_eq!(top[1].id, "extra");
    assert!(top[1].buttons[0].toggle);
}

#[test]
fn toolbars_with_empty_groups_accept_merges() {
    let mut toolbars = Toolbars::with_empty_groups();
    assert!(toolbars.toolbars(ToolbarPosition::Left).unwrap().is_empty());
    assert!(toolbars.toolbars(ToolbarPosition::Bottom).unwrap().is_empty());
    assert!(!toolbars.merge_toolbar(Toolbar::new("modes.toolbar")));
    assert_eq!(toolbars.toolbars(ToolbarPosition::Top).unwrap().len(), 1);
}
