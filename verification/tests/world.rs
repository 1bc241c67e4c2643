use raytracer_rust::camera::{render_row, Camera};
use raytracer_rust::canvas::{Sized, ToPPM};
use raytracer_rust::color::Color;
use raytracer_rust::world::{bounces, secondary_budget, Blend};

#[test]
fn no_bounce_is_left_at_zero() {
    let b = bounces(0, true, true);
    assert_eq!(b.reflected, None);
    assert_eq!(b.refracted, None);
    assert_eq!(b.blend, Blend::Fresnel);
    assert_eq!(secondary_budget(0, true), None);
    assert_eq!(secondary_budget(0, false), None);
}

#[test]
fn a_surface_sends_on_what_it_responds_to() {
    let mirror = bounces(5, true, false);
    assert_eq!((mirror.reflected, mirror.refracted, mirror.blend), (Some(4), None, Blend::Sum));
    let glass = bounces(5, true, true);
    assert_eq!((glass.reflected, glass.refracted, glass.blend), (Some(4), Some(4), Blend::Fresnel));
    let clear = bounces(1, false, true);
    assert_eq!((clear.reflected, clear.refracted, clear.blend), (None, Some(0), Blend::Sum));
    let matte = bounces(usize::MAX, false, false);
    assert_eq!((matte.reflected, matte.refracted, matte.blend), (None, None, Blend::Sum));
    assert_eq!(secondary_budget(usize::MAX, true), Some(usize::MAX - 1));
}

#[test]
fn a_chain_of_bounces_ends_after_the_limit() {
    for limit in 0usize..6 {
        let mut nested = 1;
        let mut remaining = limit;
        while let Some(next) = secondary_budget(remaining, true) {
            remaining = next;
            nested += 1;
        }
        assert_eq!(nested, limit + 1);
    }
}

#[test]
fn render() {
    let camera = Camera::new(11, 11);
    let centre = Color::new(97, 121, 72);
    let image = camera.render(|x, y| if (x, y) == (5, 5) { centre } else { Color::black() });
    assert_eq!(image.color_at_pixel(5, 5), centre);
    assert_eq!(image.color_at_pixel(5, 4), Color::black());
    assert_eq!(image.width(), 11);
    assert_eq!(image.height(), 11);
}

#[test]
fn render_gives_every_pixel_its_own_shade() {
    let camera = Camera::new(7, 4);
    assert_eq!((camera.hsize, camera.vsize), (7, 4));
    let shade = |x: usize, y: usize| Color::new(x as i64, y as i64, (x * 10 + y) as i64);
    let image = camera.render(shade);
    for y in 0..4 {
        for x in 0..7 {
            assert_eq!(image.color_at_pixel(x, y), shade(x, y));
        }
    }
    assert_eq!(Camera::new(2, 1).render(shade).to_ppm(), "0 0 0\n1 0 10\n");
    assert_eq!(Camera::new(0, 3).render(shade).to_ppm(), "");
}

#[test]
fn render_does_not_depend_on_the_order_of_the_pixels() {
    let shade = |x: usize, y: usize| Color::new((x * y) as i64, 255 - x as i64, y as i64 - 3);
    let serial = Camera::new(5, 6).render(shade);
    let mut other = raytracer_rust::canvas::Canvas::new(5, 6);
    for y in (0..6).rev() {
        for x in (0..5).rev() {
            other.set_color_at_pixel(x, y, shade(x, y));
        }
    }
    assert_eq!(serial.header(), other.header());
    assert_eq!(serial.to_ppm(), other.to_ppm());
}

#[test]
fn render_row_shades_every_column() {
    let shade = |x: usize, y: usize| Color::new(x as i64, y as i64, -1);
    assert_eq!(
        render_row(3, 7, &shade),
        vec![Color::new(0, 7, -1), Color::new(1, 7, -1), Color::new(2, 7, -1)]
    );
    assert_eq!(render_row(0, 7, &shade), Vec::<Color>::new());
}

#[test]
fn render_par_gives_every_pixel_its_own_shade() {
    let camera = Camera::new(9, 5);
    let shade = |x: usize, y: usize| Color::new(x as i64, y as i64, (x * 10 + y) as i64);
    let image = camera.render_par(shade);
    assert_eq!((image.width(), image.height()), (9, 5));
    for y in 0..5 {
        for x in 0..9 {
            assert_eq!(image.color_at_pixel(x, y), shade(x, y));
        }
    }
    assert_eq!(Camera::new(2, 1).render_par(shade).to_ppm(), "0 0 0\n1 0 10\n");
    assert_eq!(Camera::new(0, 3).render_par(shade).to_ppm(), "");
    assert_eq!(Camera::new(3, 0).render_par(shade).header(), "P3\n3 0\n255\n");
}

#[test]
fn serial_and_parallel_renders_are_the_same() {
    let shade = |x: usize, y: usize| Color::new((x * y) as i64, 255 - x as i64, y as i64 - 3);
    let camera = Camera::new(64, 48);
    let serial = camera.render(shade);
    let parallel = camera.render_par(shade);
    assert_eq!(serial.header(), parallel.header());
    assert_eq!(serial.to_ppm(), parallel.to_ppm());
    assert_eq!(serial.to_rows(), parallel.to_rows());
}
