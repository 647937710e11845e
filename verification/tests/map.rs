use cyberkent::map::{selected_route, Canvas};
use cyberkent::sdk::sdk_reply;

#[test]
fn new_canvas_is_transparent() {
    let c = Canvas::new(4, 3);
    assert_eq!(c.width(), 4);
    assert_eq!(c.height(), 3);
    assert_eq!(c.pixels().len(), 12);
    assert!(c.pixels().iter().all(|p| *p == [0, 0, 0, 0]));
}

#[test]
fn pixels_outside_are_skipped() {
    let c = Canvas::new(4, 3);
    assert_eq!(c.pixel_index(0, 0), Some(0));
    assert_eq!(c.pixel_index(3, 0), Some(3));
    assert_eq!(c.pixel_index(1, 2), Some(9));
    assert_eq!(c.pixel_index(4, 0), None);
    assert_eq!(c.pixel_index(0, 3), None);
    assert_eq!(c.pixel_index(-1, 1), None);
    assert_eq!(c.pixel_index(1, -1), None);
}

#[test]
fn painting_one_pixel() {
    let mut c = Canvas::new(2, 2);
    let i = c.pixel_index(1, 1).unwrap();
    c.set_pixel(i, [10, 20, 30, 255]);
    assert_eq!(c.pixel(3), [10, 20, 30, 255]);
    assert_eq!(c.pixel(0), [0, 0, 0, 0]);
}

#[test]
fn route_selection() {
    assert_eq!(selected_route(0, 6), Some(0));
    assert_eq!(selected_route(5, 6), Some(5));
    assert_eq!(selected_route(6, 6), None);
    assert_eq!(selected_route(-1, 6), None);
}

#[test]
fn empty_sdk_answers_are_none() {
    assert_eq!(sdk_reply(String::new()), None);
    assert_eq!(sdk_reply("https://api".to_string()), Some("https://api".to_string()));
}
