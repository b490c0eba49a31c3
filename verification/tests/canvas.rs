use via_tool::render::Canvas;

fn pixels(canvas: Canvas) -> Vec<Vec<(u8, u8, u8)>> {
    let width = canvas.width() as usize;
    let height = canvas.height() as usize;
    let raw = canvas.into_raw();
    assert_eq!(raw.len(), 3 * width * height);
    (0..height)
        .map(|y| {
            (0..width)
                .map(|x| {
                    let at = 3 * (y * width + x);
                    (raw[at], raw[at + 1], raw[at + 2])
                })
                .collect()
        })
        .collect()
}

const BLACK: (u8, u8, u8) = (0, 0, 0);
const RED: (u8, u8, u8) = (255, 1, 2);
const BLUE: (u8, u8, u8) = (3, 4, 255);

#[test]
fn canvas_is_black_at_first() {
    let canvas = Canvas::new(3, 2);
    assert_eq!((canvas.width(), canvas.height()), (3, 2));
    assert_eq!(canvas.image_size(), 2);
    assert_eq!(pixels(canvas), vec![vec![BLACK; 3]; 2]);
    let canvas = Canvas::new(2, 5);
    assert_eq!(canvas.image_size(), 2);
    assert_eq!(canvas.into_raw(), vec![0; 30]);
}

#[test]
fn canvas_may_be_empty() {
    let canvas = Canvas::new(0, 7);
    assert_eq!((canvas.width(), canvas.height(), canvas.image_size()), (0, 7, 0));
    assert!(canvas.into_raw().is_empty());
    let mut canvas = Canvas::new(4, 0);
    assert!(!canvas.draw_particle_topdown(0, 0, RED));
    assert!(canvas.into_raw().is_empty());
}

#[test]
fn star_is_drawn_from_above_around_the_middle() {
    let mut canvas = Canvas::new(4, 4);
    assert!(canvas.draw_particle_topdown(0, 0, RED));
    assert!(canvas.draw_particle_topdown(-2, 1, BLUE));
    assert!(canvas.draw_particle_topdown(1, -2, (9, 8, 7)));
    let mut expected = vec![vec![BLACK; 4]; 4];
    expected[2][2] = RED;
    expected[3][0] = BLUE;
    expected[0][3] = (9, 8, 7);
    assert_eq!(pixels(canvas), expected);
}

#[test]
fn star_is_drawn_over_another() {
    let mut canvas = Canvas::new(2, 2);
    assert!(canvas.draw_particle_topdown(0, -1, RED));
    assert!(canvas.draw_particle_topdown(0, -1, BLUE));
    assert_eq!(canvas.into_raw(), vec![0, 0, 0, 3, 4, 255, 0, 0, 0, 0, 0, 0]);
}

#[test]
fn star_outside_the_square_is_not_drawn() {
    let mut canvas = Canvas::new(6, 4);
    assert_eq!(canvas.image_size(), 4);
    for (x, y) in [
        (2, 0),
        (0, 2),
        (-3, 0),
        (0, -3),
        (3, 3),
        (i32::MAX, 0),
        (0, i32::MAX),
        (i32::MIN, 0),
        (0, i32::MIN),
        (i32::MAX, i32::MIN),
    ] {
        assert!(!canvas.draw_particle_topdown(x, y, RED), "{x} {y}");
    }
    assert!(canvas.draw_particle_topdown(1, 1, RED));
    assert!(canvas.draw_particle_topdown(-2, -2, BLUE));
    let mut expected = vec![vec![BLACK; 6]; 4];
    expected[3][3] = RED;
    expected[0][0] = BLUE;
    assert_eq!(pixels(canvas), expected);
}

#[test]
fn star_is_drawn_in_the_sky_where_it_is() {
    let mut canvas = Canvas::new(4, 2);
    canvas.draw_particle_skyview(3, 1, RED);
    canvas.draw_particle_skyview(0, 0, BLUE);
    canvas.draw_particle_skyview(1, 1, BLUE);
    canvas.draw_particle_skyview(1, 1, RED);
    let expected = vec![vec![BLUE, BLACK, BLACK, BLACK], vec![BLACK, RED, BLACK, RED]];
    assert_eq!(pixels(canvas), expected);
}
