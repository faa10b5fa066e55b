use ray_tracer::canvas::{push_decimal, Canvas};

#[test]
fn creating_a_canvas() {
    let c = Canvas::new(10, 20, (0.0, 0.0, 0.0));

    assert_eq!(c.width, 10);
    assert_eq!(c.height, 20);
    assert_eq!(c.canvas[150], (0.0, 0.0, 0.0));
}

#[test]
fn writing_pixels_to_canvas() {
    let mut c = Canvas::new(10, 20, (0.0, 0.0, 0.0));
    let red = (1.0, 0.0, 0.0);
    c.write_pixel(2, 3, red);

    assert_eq!(c.pixel_at(2, 3), red);
}

#[test]
fn constructing_ppm_header() {
    let c = Canvas::new(5, 3, [0u8, 0, 0]);
    let ppm = c.canvas_to_ppm();
    let ppm_split: Vec<&str> = ppm.split("\n").collect();
    let expected = vec!["P3", "5 3", "255"];

    assert_eq!(ppm_split[0..3], expected);
}

#[test]
fn constructing_ppm_pixel_data() {
    // channels already scaled to 0..=255: 1.5 -> 255, 0.5 -> 128, -0.5 -> 0, 1.0 -> 255
    let mut c = Canvas::new(5, 3, [0u8, 0, 0]);
    c.write_pixel(0, 0, [255, 0, 0]);
    c.write_pixel(2, 1, [0, 128, 0]);
    c.write_pixel(4, 2, [0, 0, 255]);
    let ppm = c.canvas_to_ppm();
    let ppm_split: Vec<&str> = ppm.split("\n").collect();
    let expected = vec![
        "255 0 0 0 0 0 0 0 0 0 0 0 0 0 0",
        "0 0 0 0 0 0 0 128 0 0 0 0 0 0 0",
        "0 0 0 0 0 0 0 0 0 0 0 0 0 0 255"
    ];

    assert_eq!(&ppm_split[3..6], expected);
}

#[test]
fn splitting_long_lines_in_ppm_files() {
    // the colour (1.0, 0.8, 0.6) scaled to 0..=255
    let mut c = Canvas::new(10, 2, [0u8, 0, 0]);
    for w in 0..c.width {
        for h in 0..c.height {
            c.write_pixel(w, h, [255, 204, 153]);
        }
    }
    let ppm = c.canvas_to_ppm();
    let ppm_split: Vec<&str> = ppm.split("\n").collect();
    let expected = vec![
        "255 204 153 255 204 153 255 204 153 255 204 153 255 204 153 255 204",
        "153 255 204 153 255 204 153 255 204 153 255 204 153",
        "255 204 153 255 204 153 255 204 153 255 204 153 255 204 153 255 204",
        "153 255 204 153 255 204 153 255 204 153 255 204 153"
    ];

    assert_eq!(&ppm_split[3..7], expected);
}

#[test]
fn ppm_files_terminate_in_newline() {
    let c = Canvas::new(5, 3, [0u8, 0, 0]);
    let ppm = c.canvas_to_ppm();
    let expected = "P3\n5 3\n255\n0 0 0 0 0 0 0 0 0 0 0 0 0 0 0\n0 0 0 0 0 0 0 0 0 0 0 0 0 0 0\n0 0 0 0 0 0 0 0 0 0 0 0 0 0 0\n";

    assert_eq!(ppm, expected);
}

#[test]
fn empty_canvas_is_header_only() {
    let c = Canvas::new(0, 0, [0u8, 0, 0]);

    assert_eq!(c.canvas_to_ppm(), "P3\n0 0\n255\n");
}

#[test]
fn single_pixel_canvas() {
    let mut c = Canvas::new(1, 1, [0u8, 0, 0]);
    c.write_pixel(0, 0, [7, 42, 255]);

    assert_eq!(c.canvas_to_ppm(), "P3\n1 1\n255\n7 42 255\n");
}

#[test]
fn each_canvas_row_ends_its_line() {
    let mut c = Canvas::new(2, 2, [0u8, 0, 0]);
    c.write_pixel(1, 1, [1, 2, 3]);

    assert_eq!(c.canvas_to_ppm(), "P3\n2 2\n255\n0 0 0 0 0 0\n0 0 0 1 2 3\n");
}

#[test]
fn wrapped_lines_stay_within_seventy_characters() {
    let mut c = Canvas::new(30, 1, [0u8, 0, 0]);
    for x in 0..30 {
        c.write_pixel(x, 0, [255, 255, 255]);
    }
    let ppm = c.canvas_to_ppm();
    let lines: Vec<&str> = ppm.split("\n").collect();

    assert_eq!(lines[3].len(), 67);
    assert!(lines[3..].iter().all(|l| l.len() <= 70));
    assert_eq!(lines[3..].iter().map(|l| l.split(' ').filter(|t| !t.is_empty()).count()).sum::<usize>(), 90);
}

#[test]
fn coordinates_inside_and_outside() {
    let c = Canvas::new(10, 20, 0u8);

    assert_eq!(c.coords_to_index(2, 3), Some(32));
    assert_eq!(c.coords_to_index(9, 19), Some(199));
    assert_eq!(c.coords_to_index(10, 0), None);
    assert_eq!(c.coords_to_index(0, 20), None);
}

#[test]
fn writing_one_pixel_leaves_the_others() {
    let mut c = Canvas::new(3, 2, 0u8);
    c.write_pixel(1, 1, 9);

    assert_eq!(c.canvas, vec![0, 0, 0, 0, 9, 0]);
}

#[test]
fn decimal_notation() {
    let mut s = String::from("n=");
    push_decimal(&mut s, 0);
    assert_eq!(s, "n=0");

    let mut t = String::new();
    push_decimal(&mut t, 1090);
    assert_eq!(t, "1090");

    let mut u = String::new();
    push_decimal(&mut u, usize::MAX);
    assert_eq!(u, usize::MAX.to_string());
}
