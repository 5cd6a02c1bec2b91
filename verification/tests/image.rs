use graphics_exercises::image::{level, push_decimal, write_color, ImageError, PPMImageWriter};
use graphics_exercises::ray::hittable::HittableList;
use graphics_exercises::ray::{Bounce, Ray, Shade};
use graphics_exercises::scalar::Scalar;
use graphics_exercises::vector::Vec3;

fn s(x: f64) -> Scalar {
    Scalar::from_bits(x.to_bits())
}

fn v(x: f64, y: f64, z: f64) -> Vec3 {
    Vec3::new(s(x), s(y), s(z))
}

#[test]
fn test_writer() {
    let writer = PPMImageWriter::new(256, s(1.), s(256. / 1.), 100).unwrap();
    assert_eq!(writer.image_height, 256);
    let scale = 1. / writer.samples_per_pixel as f64;
    let mut pixels = Vec::new();
    for idx in 0..writer.pixel_count() {
        let (j, i) = writer.pixel_coordinates(idx);
        let color = (
            (i as f64) / (writer.image_width - 1) as f64,
            (j as f64) / (writer.image_height - 1) as f64,
            0.25,
        );
        pixels.push(v(
            (scale * color.0).sqrt(),
            (scale * color.1).sqrt(),
            (scale * color.2).sqrt(),
        ));
    }
    let out = writer.write(&pixels);
    let text = String::from_utf8(out).unwrap();
    assert!(text.starts_with("P3\n256 256\n255\n"));
    assert_eq!(text.lines().count(), 256 * 256 + 3);
    assert_eq!(text.lines().nth(3).unwrap(), "0 25 12");
}

#[test]
fn white_is_written_as_255() {
    assert_eq!(level(s(1.0)), 255);
    let writer = PPMImageWriter::new(1, s(1.0), s(1.0), 1).unwrap();
    let out = writer.write(&vec![v(1.0, 1.0, 1.0)]);
    assert_eq!(out, b"P3\n1 1\n255\n255 255 255\n".to_vec());
}

#[test]
fn level_is_the_truncated_scaled_clamp() {
    let mut x = -0.5;
    while x < 1.5 {
        assert_eq!(level(s(x)), (256. * x.clamp(0., 0.999)) as u32, "{x}");
        x += 0.000137;
    }
    assert_eq!(level(s(0.999)), 255);
    assert_eq!(level(s(0.9990000000000001)), 255);
    assert_eq!(level(s(0.99609375)), 255);
    assert_eq!(level(s(0.9960937499999999)), 254);
    assert_eq!(level(s(0.0)), 0);
    assert_eq!(level(s(-0.0)), 0);
    assert_eq!(level(s(0.5)), 128);
    assert_eq!(level(s(f64::NAN)), 0);
    assert_eq!(level(s(f64::INFINITY)), 255);
    assert_eq!(level(s(f64::NEG_INFINITY)), 0);
}

#[test]
fn two_by_one_image_has_two_pixels_in_one_row() {
    let writer = PPMImageWriter::new(2, s(2.0), s(2.0 / 2.0), 1).unwrap();
    assert_eq!(writer.image_width, 2);
    assert_eq!(writer.image_height, 1);
    assert_eq!(writer.pixel_count(), 2);
    assert_eq!(writer.pixel_coordinates(0), (1, 0));
    assert_eq!(writer.pixel_coordinates(1), (1, 1));
    let out = writer.write(&vec![v(0.0, 0.5, 1.0), v(0.25, 0.25, 0.25)]);
    assert_eq!(out, b"P3\n2 1\n255\n0 128 255\n64 64 64\n".to_vec());
}

#[test]
fn raster_runs_from_the_top_row_down() {
    let writer = PPMImageWriter::new(3, s(1.5), s(3.0 / 1.5), 4).unwrap();
    assert_eq!(writer.image_height, 2);
    let at: Vec<(u32, u32)> = (0..6).map(|i| writer.pixel_coordinates(i)).collect();
    assert_eq!(at, vec![(2, 0), (2, 1), (2, 2), (1, 0), (1, 1), (1, 2)]);
}

#[test]
fn an_image_without_columns_or_samples_is_refused() {
    assert_eq!(
        PPMImageWriter::new(0, s(1.0), s(0.0), 1).err(),
        Some(ImageError::ZeroWidth)
    );
    assert_eq!(
        PPMImageWriter::new(0, s(1.0), s(0.0), 0).err(),
        Some(ImageError::ZeroWidth)
    );
    assert_eq!(
        PPMImageWriter::new(4, s(1.0), s(4.0), 0).err(),
        Some(ImageError::ZeroSamples)
    );
}

#[test]
fn decimal_digits() {
    let mut out = Vec::new();
    push_decimal(&mut out, 0);
    out.push(b' ');
    push_decimal(&mut out, 7);
    out.push(b' ');
    push_decimal(&mut out, 1200);
    out.push(b' ');
    push_decimal(&mut out, u32::MAX);
    assert_eq!(out, b"0 7 1200 4294967295".to_vec());
}

#[test]
fn a_pixel_is_one_line() {
    let mut out = b"x".to_vec();
    write_color(&mut out, v(0.0, 0.5, 2.0));
    assert_eq!(out, b"x0 128 255\n".to_vec());
}

#[test]
fn an_empty_scene_shows_the_sky_in_every_pixel() {
    let writer = PPMImageWriter::new(2, s(2.0), s(2.0 / 2.0), 1).unwrap();
    let world = HittableList::default();
    let (t_min, t_max) = Ray::interval();
    let mut renders = Vec::new();
    for _ in 0..3 {
        let mut pixels = Vec::new();
        for idx in 0..writer.pixel_count() {
            let (_j, i) = writer.pixel_coordinates(idx);
            // A ray that rises for the left pixel and is level for the right one.
            let y: f64 = if i == 0 { 0.6 } else { 0.0 };
            assert!(world.hit(&vec![], t_min, t_max).is_none());
            assert_eq!(Ray::color(50, Bounce::Miss), Shade::Sky);
            let t = 0.5 * (y + 1.);
            let sky = [
                (1. - t) * 1.0 + t * 0.5,
                (1. - t) * 1.0 + t * 0.7,
                (1. - t) * 1.0 + t * 1.0,
            ];
            pixels.push(v(sky[0].sqrt(), sky[1].sqrt(), sky[2].sqrt()));
        }
        renders.push(writer.write(&pixels));
    }
    assert_eq!(renders[0], b"P3\n2 1\n255\n198 223 255\n221 236 255\n".to_vec());
    assert_eq!(renders[0], renders[1]);
    assert_eq!(renders[1], renders[2]);
}
