use chama::behaviour::PluginExecutionBehaviour;
use chama::dyn_children::DynChildrenRenderer;
use chama::input::Key;
use chama::style::{InteractiveElementState, InteractiveElementStyle};
use chama::ui::{default_snackbar_position, SnackbarPosition, SnackbarProps, TooltipPosition};
use chama::{slugify, str_eq};

#[test]
fn slugify_replaces_separators_and_lowercases() {
    assert_eq!(slugify("Hello World!"), "hello-world-");
    assert_eq!(slugify("A.b;C?d,e"), "a-b-c-d-e");
    assert_eq!(slugify(""), "");
    assert_eq!(slugify("Grüße ÄÖ"), "grüße-ÄÖ");
}

#[test]
fn str_eq_compares_texts() {
    assert!(str_eq("abc", "abc"));
    assert!(!str_eq("abc", "abd"));
    assert!(!str_eq("abc", "ab"));
}

#[test]
fn behaviour_names_are_parsed() {
    assert_eq!(PluginExecutionBehaviour::from_str("NonRestricted"), Ok(PluginExecutionBehaviour::NonRestricted));
    assert_eq!(PluginExecutionBehaviour::from_str("Exclusive"), Ok(PluginExecutionBehaviour::Exclusive));
    assert_eq!(PluginExecutionBehaviour::from_str("Always"), Ok(PluginExecutionBehaviour::Always));
    assert_eq!(PluginExecutionBehaviour::from_str("Once"), Ok(PluginExecutionBehaviour::Once));
    assert_eq!(PluginExecutionBehaviour::from_str("once"), Err(()));
    assert_eq!(PluginExecutionBehaviour::from_str(""), Err(()));
    assert_eq!("Always".parse::<PluginExecutionBehaviour>(), Ok(PluginExecutionBehaviour::Always));
    assert_eq!("always".parse::<PluginExecutionBehaviour>(), Err(()));
}

#[test]
fn mouse_buttons_from_codes() {
    assert_eq!(Key::from(0u32), Key::Left);
    assert_eq!(Key::from(1u32), Key::Middle);
    assert_eq!(Key::from(2u32), Key::Right);
    assert_eq!(Key::from(3u32), Key::Unknown);
    assert_eq!(Key::from(2i16), Key::Right);
    assert_eq!(Key::from(-1i16), Key::Unknown);
}

#[test]
fn snackbar_defaults_to_the_left() {
    assert_eq!(default_snackbar_position(), SnackbarPosition::Left);
    let props = SnackbarProps::new("saved".to_string());
    assert_eq!(props.position, SnackbarPosition::Left);
    assert_eq!(props.message, "saved");
    assert_eq!(SnackbarPosition::Center.to_string(), "center");
    assert_eq!(SnackbarPosition::Right.to_string(), "right");
}

#[test]
fn tooltip_class_names() {
    assert_eq!(TooltipPosition::Above.class_name(), "above");
    assert_eq!(TooltipPosition::Below.class_name(), "below");
    assert_eq!(TooltipPosition::Left.class_name(), "left");
    assert_eq!(TooltipPosition::Right.class_name(), "right");
}

#[test]
fn framework_style_defaults() {
    let style = InteractiveElementStyle::default();
    assert_eq!(style.normal.border_width, 0);
    assert_eq!(style.normal.background_color, "#2A2A2B");
    assert_eq!(style.style_for(InteractiveElementState::Hover).background_color, "#1e88e5");
    assert_eq!(style.style_for(InteractiveElementState::Selected).background_color, "hsl(0, 100%, 50%)");
    assert_eq!(style.style_for(InteractiveElementState::Normal).border_color, "#FFFFFF");
}

#[test]
fn dyn_children_behave_as_a_stack() {
    let mut children = DynChildrenRenderer::new(vec![1, 2]);
    assert_eq!(children.len(), 2);
    assert!(!children.is_empty());
    children.push(3);
    assert_eq!(children.iter(), vec![1, 2, 3]);
    assert_eq!(children.pop(), Some(3));
    assert_eq!(children.pop(), Some(2));
    assert_eq!(children.pop(), Some(1));
    assert_eq!(children.pop(), None);
    assert!(children.is_empty());
    let empty: DynChildrenRenderer<u8> = DynChildrenRenderer::default();
    assert_eq!(empty.len(), 0);
}
