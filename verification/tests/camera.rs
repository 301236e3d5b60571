use chama::Camera;

#[test]
fn left_mouse_button_activates_camera() {
    let mut camera = Camera::default();

    camera.mouse_down(1);

    assert!(camera.active());
}

#[test]
fn not_left_mouse_button_does_not_activates_camera() {
    let mut camera = Camera::default();

    camera.mouse_down(0);

    assert_eq!(camera.active(), false);
}

#[test]
fn left_mouse_button_deactivates_camera() {
    let mut camera = Camera::default();

    camera.set_active(true);
    camera.mouse_up(1);
    assert_eq!(camera.active(), false);
}

#[test]
fn not_left_mouse_button_does_not_deactivates_camera() {
    let mut camera = Camera::default();

    camera.set_active(true);
    camera.mouse_up(2);
    assert!(camera.active());
}

#[test]
fn camera_follows_mouse_only_while_active() {
    let mut camera = Camera::default();
    assert!(!camera.follows_mouse());
    camera.mouse_down(1);
    assert!(camera.follows_mouse());
    camera.mouse_down(2);
    assert!(!camera.follows_mouse());
}
