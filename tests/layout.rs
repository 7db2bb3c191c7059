use chat::layout::Colors;
use chat::layout::Config;
use chat::layout::Rect;
use chat::layout::Rgb;

#[test]
fn rect_geometry() {
    let r: Rect = (2, 3, 10, 8).into();
    assert_eq!(r, Rect { x: 2, y: 3, w: 10, h: 8 });
    assert_eq!(r.shrink_center(1), Rect { x: 3, y: 4, w: 8, h: 6 });
    assert_eq!(r.shrink_center(4), Rect { x: 6, y: 7, w: 2, h: 0 });
    assert_eq!(r.down(5), Rect { x: 7, y: 3, w: 10, h: 8 });
    assert_eq!(r.up(2), Rect { x: 0, y: 3, w: 10, h: 8 });
}

#[test]
fn config_covers_the_terminal() {
    let c = Config::new(80, 24);
    assert_eq!(c.rect(), Rect { x: 0, y: 0, w: 80, h: 24 });
    assert_eq!(c.colors, Colors::palette());
    assert_eq!(c.colors.purple, Rgb { r: 189, g: 147, b: 249 });
}
