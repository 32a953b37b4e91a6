use pathtracer::fixed::Fixed;
use pathtracer::image::channel;
use pathtracer::image::write_decimal;
use pathtracer::image::write_pixel;
use pathtracer::image::Color;
use pathtracer::image::Output;
use pathtracer::vec3::Vec3;

fn fx(x: f64) -> Fixed {
    Fixed::from_raw((x * 16777216.0).round() as i64)
}

fn v3(x: f64, y: f64, z: f64) -> Vec3 {
    Vec3::new(fx(x), fx(y), fx(z))
}

#[test]
fn color_new_keeps_channels() {
    let c = Color::new(1, 2, 3);
    assert_eq!((c.r, c.g, c.b), (1, 2, 3));
}

#[test]
fn channel_truncates_and_saturates() {
    assert_eq!(channel(fx(0.0)), 0);
    assert_eq!(channel(fx(0.999)), 0);
    assert_eq!(channel(fx(1.0)), 1);
    assert_eq!(channel(fx(127.5)), 127);
    assert_eq!(channel(fx(255.0)), 255);
    assert_eq!(channel(fx(255.99)), 255);
    assert_eq!(channel(fx(256.0)), 255);
    assert_eq!(channel(fx(100000.0)), 255);
    assert_eq!(channel(Fixed::max_value()), 255);
    assert_eq!(channel(fx(-0.5)), 0);
    assert_eq!(channel(fx(-3.0)), 0);
    assert_eq!(channel(Fixed::from_raw(i64::MIN)), 0);
}

#[test]
fn color_from_vec3() {
    assert_eq!(Color::from_vec3(v3(12.7, 255.9, 0.2)), Color::new(12, 255, 0));
    assert_eq!(Color::from_vec3(v3(-1.0, 300.0, 64.0)), Color::new(0, 255, 64));
}

#[test]
fn color_from_normalized_vec3() {
    assert_eq!(Color::from_normalized_vec3(v3(0.0, 0.5, 1.0)), Color::new(0, 127, 255));
    assert_eq!(Color::from_normalized_vec3(v3(0.25, 0.75, 0.999)), Color::new(63, 191, 255));
    assert_eq!(Color::from_normalized_vec3(v3(1.5, -0.5, 0.1)), Color::new(255, 0, 25));
    // 1 / 255.99 is the least level that gives one.
    assert_eq!(Color::from_normalized_vec3(v3(0.0039, 0.00391, 0.0)), Color::new(0, 1, 0));
}

#[test]
fn decimal_digits() {
    let cases: [(u32, &str); 9] = [
        (0, "0"),
        (7, "7"),
        (9, "9"),
        (10, "10"),
        (99, "99"),
        (100, "100"),
        (255, "255"),
        (1200, "1200"),
        (u32::MAX, "4294967295"),
    ];
    for (n, text) in cases.iter() {
        let mut out = Vec::new();
        write_decimal(&mut out, *n);
        assert_eq!(out, text.as_bytes());
    }
}

#[test]
fn write_decimal_appends() {
    let mut out = b"x=".to_vec();
    write_decimal(&mut out, 42);
    write_decimal(&mut out, 0);
    assert_eq!(out, b"x=420");
}

#[test]
fn pixel_line() {
    let mut out = Vec::new();
    write_pixel(&mut out, Color::new(255, 0, 18));
    assert_eq!(out, b"255 0 18\n");
    write_pixel(&mut out, Color::new(1, 22, 133));
    assert_eq!(out, b"255 0 18\n1 22 133\n");
}

#[test]
fn encode_writes_header_and_pixels() {
    let image = Output {
        rows: 2,
        cols: 3,
        colors: vec![
            Color::new(255, 0, 0),
            Color::new(0, 255, 0),
            Color::new(0, 0, 255),
            Color::new(10, 20, 30),
            Color::new(1, 2, 3),
            Color::new(100, 100, 100),
        ],
    };
    let text = String::from_utf8(image.encode()).unwrap();
    assert_eq!(
        text,
        "P3\n3 2\n255\n255 0 0\n0 255 0\n0 0 255\n10 20 30\n1 2 3\n100 100 100\n"
    );
}

#[test]
fn encode_of_an_empty_image_is_the_header() {
    let image = Output { rows: 0, cols: 0, colors: Vec::new() };
    assert_eq!(image.encode(), b"P3\n0 0\n255\n");
    let wide = Output { rows: 800, cols: 1200, colors: Vec::new() };
    assert_eq!(wide.encode(), b"P3\n1200 800\n255\n");
}

#[test]
fn encode_has_one_line_per_pixel() {
    let mut colors = Vec::new();
    for k in 0..1000u32 {
        colors.push(Color::new((k % 256) as u8, (k / 4) as u8, 7));
    }
    let image = Output { rows: 25, cols: 40, colors };
    let text = String::from_utf8(image.encode()).unwrap();
    let lines: Vec<&str> = text.lines().collect();
    assert_eq!(lines.len(), 3 + 1000);
    assert_eq!(lines[0], "P3");
    assert_eq!(lines[1], "40 25");
    assert_eq!(lines[2], "255");
    assert_eq!(lines[3], "0 0 7");
    assert_eq!(lines[3 + 999], format!("{} {} 7", 999 % 256, 999 / 4));
    for line in lines[3..].iter() {
        let channels: Vec<u32> = line.split(' ').map(|c| c.parse().unwrap()).collect();
        assert_eq!(channels.len(), 3);
        assert!(channels.iter().all(|c| *c <= 255));
    }
}
