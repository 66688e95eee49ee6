use raytracer::color::{channel, get_color, sample_pixel, to_pixel, Exposure, CHANNEL_TOP_BITS};
use std::cell::{Cell, RefCell};
use raytracer::scalar::Scalar;
use raytracer::vec3::{IVec3, Vec3};

fn s(x: f32) -> Scalar {
    Scalar::from_bits(x.to_bits())
}

fn clamp_of_numbers(x: f32, min: f32, max: f32) -> f32 {
    if x < min {
        min
    } else if x > max {
        max
    } else {
        x
    }
}

fn channel_of_numbers(x: f32) -> i32 {
    (clamp_of_numbers(x, 0.0, 0.999) * 256.0) as i32
}

#[test]
fn channel_top_is_just_below_one() {
    assert_eq!(CHANNEL_TOP_BITS, 0.999f32.to_bits());
}

#[test]
fn channel_of_known_values() {
    assert_eq!(channel(s(0.0)), 0);
    assert_eq!(channel(s(-0.0)), 0);
    assert_eq!(channel(s(0.5)), 128);
    assert_eq!(channel(s(0.25)), 64);
    assert_eq!(channel(s(0.999)), 255);
    assert_eq!(channel(s(1.0)), 255);
    assert_eq!(channel(s(7.5)), 255);
    assert_eq!(channel(s(-3.0)), 0);
    assert_eq!(channel(s(1.0 / 256.0)), 1);
    assert_eq!(channel(s(0.003_906_249)), 0);
    assert_eq!(channel(s(0.996_093_75)), 255);
    assert_eq!(channel(s(0.996_093_7)), 254);
    assert_eq!(channel(s(f32::INFINITY)), 255);
    assert_eq!(channel(s(f32::NEG_INFINITY)), 0);
    assert_eq!(channel(s(f32::NAN)), 0);
    assert_eq!(channel(s(f32::MIN_POSITIVE)), 0);
    assert_eq!(channel(s(f32::from_bits(1))), 0);
}

#[test]
fn channel_agrees_with_the_numbers_on_every_exponent() {
    let mut bits: u32 = 0;
    loop {
        for sign in [0u32, 0x8000_0000] {
            let x = f32::from_bits(bits | sign);
            assert_eq!(channel(s(x)), channel_of_numbers(x), "{x:?}");
        }
        match bits.checked_add(7919) {
            Some(next) if next <= 0x7FFF_FFFF => bits = next,
            _ => break,
        }
    }
}

#[test]
fn channel_agrees_with_the_numbers_between_zero_and_one() {
    for i in 0..=300_000u32 {
        let x = (i as f32) / 250_000.0 - 0.1;
        assert_eq!(channel(s(x)), channel_of_numbers(x), "{x:?}");
    }
    for n in 0..=256u32 {
        let edge = (n as f32) / 256.0;
        for step in [-2i32, -1, 0, 1, 2] {
            let x = f32::from_bits((edge.to_bits() as i32 + step).max(0) as u32);
            assert_eq!(channel(s(x)), channel_of_numbers(x), "{x:?}");
        }
    }
}

#[test]
fn channel_stays_within_eight_bits() {
    let mut bits: u32 = 0x0BAD_5EED;
    for _ in 0..100_000 {
        bits = bits.wrapping_mul(1_664_525).wrapping_add(1_013_904_223);
        let n = channel(Scalar::from_bits(bits));
        assert!((0..=255).contains(&n));
    }
}

fn f(x: Scalar) -> f32 {
    f32::from_bits(x.to_bits())
}

fn v(x: f32, y: f32, z: f32) -> Vec3 {
    Vec3::new(s(x), s(y), s(z))
}

fn add(a: Vec3, b: Vec3) -> Vec3 {
    v(f(a.x) + f(b.x), f(a.y) + f(b.y), f(a.z) + f(b.z))
}

/// Divides by the number of samples and takes the root, as gamma 2 asks.
fn develop(sum: Vec3, samples: i32) -> Vec3 {
    let scale = 1.0 / (samples as f32);
    v(f32::sqrt(scale * f(sum.x)), f32::sqrt(scale * f(sum.y)), f32::sqrt(scale * f(sum.z)))
}

#[test]
fn to_pixel_scales_each_component() {
    let pixel = to_pixel(&v(0.5, 2.0, -1.0));
    assert_eq!(pixel, IVec3 { x: 128, y: 255, z: 0 });
    let pixel = to_pixel(&v(0.25, 0.75, f32::NAN));
    assert_eq!(pixel, IVec3 { x: 64, y: 192, z: 0 });
}

#[test]
fn get_color_develops_the_sum_first() {
    let pixel = get_color(&v(1.0, 4.0, 0.25), 4, &develop);
    assert_eq!(pixel, IVec3 { x: 128, y: 255, z: 64 });
    let pixel = get_color(&v(125.0, 0.0, 500.0), 500, &develop);
    assert_eq!(pixel, IVec3 { x: 128, y: 0, z: 255 });
    let pixel = get_color(&v(-1.0, 1.0, 1.0), 0, &develop);
    assert_eq!(pixel, IVec3 { x: 0, y: 255, z: 255 });
}

#[test]
fn get_color_hands_sum_and_count_to_develop() {
    let seen = RefCell::new(Vec::new());
    let pixel = get_color(&v(0.25, 0.5, 0.75), 7, &|sum: Vec3, samples: i32| {
        seen.borrow_mut().push(([f(sum.x), f(sum.y), f(sum.z)], samples));
        v(0.5, 0.5, 0.5)
    });
    assert_eq!(pixel, IVec3 { x: 128, y: 128, z: 128 });
    assert_eq!(*seen.borrow(), vec![([0.25, 0.5, 0.75], 7)]);
}

#[test]
fn sample_pixel_adds_up_every_sample() {
    let taken = Cell::new(0u32);
    let exposure = Exposure {
        sample: |x: usize, y: usize| {
            taken.set(taken.get() + 1);
            v(x as f32, y as f32, taken.get() as f32)
        },
        add,
        develop: |sum: Vec3, samples: i32| {
            assert_eq!([f(sum.x), f(sum.y), f(sum.z)], [4.0, 8.0, 10.0]);
            assert_eq!(samples, 4);
            v(0.25, 0.5, 0.75)
        },
    };
    let pixel = sample_pixel(1, 2, 4, &exposure);
    assert_eq!(taken.get(), 4);
    assert_eq!(pixel, IVec3 { x: 64, y: 128, z: 192 });
}

#[test]
fn sample_pixel_averages_and_corrects_for_gamma() {
    let shades = [0.0f32, 0.5, 0.5, 0.0];
    let turn = Cell::new(0usize);
    let exposure = Exposure {
        sample: |_: usize, _: usize| {
            let c = shades[turn.get()];
            turn.set(turn.get() + 1);
            v(c, 1.0, 0.0)
        },
        add,
        develop,
    };
    let pixel = sample_pixel(0, 0, 4, &exposure);
    assert_eq!(pixel, IVec3 { x: 128, y: 255, z: 0 });
}

#[test]
fn sample_pixel_without_samples_develops_black() {
    for samples in [0, -3] {
        let exposure = Exposure {
            sample: |_: usize, _: usize| -> Vec3 { unreachable!() },
            add,
            develop: |sum: Vec3, n: i32| {
                assert_eq!((sum.x.to_bits(), sum.y.to_bits(), sum.z.to_bits()), (0, 0, 0));
                assert_eq!(n, samples);
                v(0.5, 0.5, 0.5)
            },
        };
        assert_eq!(sample_pixel(3, 4, samples, &exposure), IVec3 { x: 128, y: 128, z: 128 });
    }
}

#[test]
fn channel_never_falls_as_the_colour_brightens() {
    let mut last = 0;
    let mut bits: u32 = 0;
    while bits <= 0x7F80_0000 {
        let now = channel(Scalar::from_bits(bits));
        assert!(last <= now, "{bits:#x}");
        last = now;
        bits += 4099;
    }
    assert_eq!(last, 255);
    assert!(channel(s(-1.0)) <= channel(s(-0.5)));
    assert!(channel(s(-0.5)) <= channel(s(0.1)));
    assert!(channel(s(0.1)) < channel(s(0.2)));
}
