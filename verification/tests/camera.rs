use orbgame::{Camera, CameraBuilder, Point, Rectangle};

#[test]
fn test_set_width() {
    let mut camera = Camera::default();
    camera.set_width(5);

    assert_eq!(5, camera.width());
}

#[test]
fn test_set_height() {
    let mut camera = Camera::default();
    camera.set_height(5);

    assert_eq!(5, camera.height());
}

#[test]
fn test_set_size() {
    let mut camera = Camera::default();
    camera.set_size(6, 7);

    assert_eq!(6, camera.width());
    assert_eq!(7, camera.height());
}

#[test]
fn test_set_x() {
    let mut camera = Camera::default();
    camera.set_x(5);

    assert_eq!(5, camera.x());
}

#[test]
fn test_set_y() {
    let mut camera = Camera::default();
    camera.set_y(5);

    assert_eq!(5, camera.y());
}

#[test]
fn test_set_position() {
    let mut camera = Camera::default();
    camera.set_position(6, 7);

    assert_eq!(6, camera.x());
    assert_eq!(7, camera.y());
}

#[test]
fn test_mov() {
    // A fifth of a second is 200 milliseconds, a second 1000.
    let mut camera = Camera::new(Rectangle::new(0, 0, 10, 10), Point::new(100, 50));
    camera.mov(200, -10, -10);
    assert_eq!(0, camera.x());
    assert_eq!(0, camera.y());

    camera = Camera::new(Rectangle::new(0, 0, 10, 10), Point::new(100, 50));
    camera.mov(1000, 200, 200);
    assert_eq!(100, camera.x());
    assert_eq!(50, camera.y());
    camera = Camera::new(Rectangle::new(0, 0, 10, 10), Point::new(100, 50));
    camera.mov(1000, -10, 200);
    assert_eq!(0, camera.x());
    assert_eq!(50, camera.y());
}

#[test]
fn test_builder() {
    assert_eq!(5, Camera::create().x(5).build().x());
    assert_eq!(6, Camera::create().y(6).build().y());
    assert_eq!(7, Camera::create().width(7).build().width());
    assert_eq!(8, Camera::create().height(8).build().height());
    assert_eq!(9, Camera::create().max_width(9).build().maximum().x);
    assert_eq!(10, Camera::create().max_height(10).build().maximum().y);
    assert_eq!(11, Camera::create().speed(11).build().speed());
}

#[test]
fn new_camera_has_default_speed() {
    let camera = Camera::new(Rectangle::new(1, 2, 3, 4), Point::new(5, 6));
    assert_eq!(256, camera.speed());
    assert_eq!((1, 2), camera.position());
    assert_eq!((3, 4), camera.size());
    assert_eq!(Point::new(5, 6), *camera.maximum());
}

#[test]
fn builder_defaults() {
    let camera = CameraBuilder::new().build();
    assert_eq!(256, camera.speed());
    assert_eq!((0, 0), camera.position());
    assert_eq!((0, 0), camera.size());
    assert_eq!(Point::new(0, 0), *camera.maximum());
    assert_eq!(camera, Camera::default());
    assert_eq!(camera, CameraBuilder::default().build());
}

#[test]
fn builder_sets_every_field() {
    let camera = Camera::create()
        .x(1)
        .y(2)
        .width(3)
        .height(4)
        .max_width(5)
        .max_height(6)
        .speed(7)
        .build();
    let mut expected = Camera::new(Rectangle::new(1, 2, 3, 4), Point::new(5, 6));
    expected.set_speed(7);
    assert_eq!(expected, camera);
}

#[test]
fn mov_travels_speed_times_time() {
    let mut camera = Camera::new(Rectangle::new(0, 0, 10, 10), Point::new(1000, 1000));
    // 256 pixels per second for 500 ms.
    camera.mov(500, 1, 0);
    assert_eq!((128, 0), camera.position());
    // Twice the direction for 250 ms, downwards.
    camera.mov(250, 0, 2);
    assert_eq!((128, 128), camera.position());
    // Back to the left: 100 ms at 256 pixels per second are 25.6 pixels.
    camera.mov(100, -1, 0);
    assert_eq!((103, 128), camera.position());
    camera.mov(100, 1, 0);
    assert_eq!((128, 128), camera.position());
}

#[test]
fn mov_drops_parts_of_a_pixel() {
    let mut camera = Camera::new(Rectangle::new(50, 50, 10, 10), Point::new(1000, 1000));
    camera.set_speed(1);
    camera.mov(999, 1, -1);
    assert_eq!((50, 50), camera.position());
    camera.mov(1000, 1, -1);
    assert_eq!((51, 49), camera.position());
}

#[test]
fn mov_uses_the_speed_that_was_set() {
    let mut camera = Camera::new(Rectangle::new(0, 0, 10, 10), Point::new(1000, 1000));
    camera.set_speed(100);
    camera.mov(1000, 3, 1);
    assert_eq!((300, 100), camera.position());
    camera.set_speed(-100);
    camera.mov(1000, 1, 1);
    assert_eq!((200, 0), camera.position());
}

#[test]
fn mov_clamps_each_axis_on_its_own() {
    let mut camera = Camera::new(Rectangle::new(10, 10, 10, 10), Point::new(100, 50));
    camera.mov(1000, 1, 0);
    assert_eq!((100, 10), camera.position());
    camera.mov(1000, 0, 1);
    assert_eq!((100, 50), camera.position());
    camera.mov(1000, -1, 0);
    assert_eq!((0, 50), camera.position());
}

#[test]
fn mov_keeps_extent_limit_and_speed() {
    let mut camera = Camera::new(Rectangle::new(0, 0, 30, 20), Point::new(100, 50));
    camera.mov(16, 1, 1);
    assert_eq!((4, 4), camera.position());
    assert_eq!((30, 20), camera.size());
    assert_eq!(Point::new(100, 50), *camera.maximum());
    assert_eq!(256, camera.speed());
}

#[test]
fn mov_brings_a_stray_camera_back() {
    let mut camera = Camera::new(Rectangle::new(0, 0, 10, 10), Point::new(100, 50));
    camera.set_position(-40, 400);
    assert_eq!((-40, 400), camera.position());
    camera.mov(0, 0, 0);
    assert_eq!((0, 50), camera.position());
}

#[test]
fn mov_with_negative_limit_goes_to_zero() {
    let mut camera = Camera::new(Rectangle::new(5, 5, 10, 10), Point::new(-1, -20));
    camera.mov(1000, 1, -1);
    assert_eq!((0, 0), camera.position());
}

#[test]
fn mov_with_extreme_values_stays_in_bounds() {
    let mut camera = Camera::new(
        Rectangle::new(i32::MAX, i32::MIN, 10, 10),
        Point::new(i32::MAX, i32::MAX),
    );
    camera.set_speed(i32::MAX);
    camera.mov(u32::MAX, i32::MAX, i32::MIN);
    assert_eq!((i32::MAX, 0), camera.position());
}

#[test]
fn setters_do_not_clamp() {
    let mut camera = Camera::new(Rectangle::new(0, 0, 10, 10), Point::new(100, 50));
    camera.set_x(500);
    camera.set_y(-7);
    assert_eq!((500, -7), camera.position());
    camera.set_maximum(20, 30);
    assert_eq!(Point::new(20, 30), *camera.maximum());
    assert_eq!((500, -7), camera.position());
}
