use server::config::{Config, Tcp};
use server::mesh::DrawArrays;
use server::rectangle::Rectangle;
use server::vector::{Point2, Vector2};

fn irect(ax: i32, ay: i32, bx: i32, by: i32) -> Rectangle<i32> {
    Rectangle::new(Vector2::new(ax, ay), Vector2::new(bx, by))
}

#[test]
fn sides_and_corners() {
    let r = irect(1, 2, 5, 9);
    assert_eq!((r.left(), r.right(), r.bot(), r.top()), (1, 5, 2, 9));
    assert_eq!(r.left_top(), Vector2::new(1, 9));
    assert_eq!(r.right_bot(), Vector2::new(5, 2));
    assert_eq!(
        r.rect_points(),
        [Vector2::new(1, 2), Vector2::new(5, 2), Vector2::new(5, 9), Vector2::new(1, 9)]
    );
}

#[test]
fn size_and_center() {
    let r = irect(1, 2, 6, 9);
    assert_eq!(r.size(), Vector2::new(5, 7));
    assert_eq!(r.center(), Vector2::new(3, 5));
    let flipped = irect(6, 9, 1, 2);
    assert_eq!(flipped.size(), Vector2::new(-5, -7));
    assert_eq!(flipped.center(), Vector2::new(4, 6));
    let u = Rectangle::new(Vector2::new(1u32, 2), Vector2::new(6u32, 9));
    assert_eq!(u.size(), Vector2::new(5, 7));
    assert_eq!(u.center(), Vector2::new(3, 5));
}

#[test]
fn intersects_point_between_top_and_bot() {
    let r = irect(0, 10, 10, 0);
    assert!(r.intersects_point(Point2 { x: 5, y: 5 }));
    assert!(r.intersects_point(Point2 { x: 0, y: 10 }));
    assert!(!r.intersects_point(Point2 { x: 11, y: 5 }));
    let upright = irect(0, 0, 10, 10);
    assert!(!upright.intersects_point(Point2 { x: 5, y: 5 }));
}

#[test]
fn cast_between_signed_and_unsigned() {
    let r = irect(1, 2, 3, 4);
    let u = r.cast().unwrap();
    assert_eq!(u.b, Vector2::new(3u32, 4));
    assert!(irect(-1, 0, 0, 0).cast().is_none());
    let big = Rectangle::new(Vector2::new(0u32, 0), Vector2::new(u32::MAX, 0));
    assert!(big.cast().is_none());
    assert_eq!(u.cast().unwrap(), r);
}

#[test]
fn rectangle_from_pair() {
    let r: Rectangle<u32> = Rectangle::from((Vector2::new(1, 2), Vector2::new(3, 4)));
    assert_eq!(r.a, Vector2::new(1, 2));
    assert_eq!(r.b, Vector2::new(3, 4));
}

#[test]
fn socket_address() {
    let config = Config {
        tcp: Tcp {
            host: "127.0.0.1".to_string(),
            port: 8080,
        },
    };
    assert_eq!(config.socket_addr(), ("127.0.0.1", 8080));
}

#[test]
fn draw_arrays_new() {
    let _d: DrawArrays<u8> = DrawArrays::new(6);
}
