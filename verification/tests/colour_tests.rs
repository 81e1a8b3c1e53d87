use fractalgen::arithmetic::Arithmetic;
use fractalgen::cmap::{Palette, Pixel};
use fractalgen::point::Point;
use fractalgen::util::{discrete, smooth};

/// The arithmetic of the plane in double precision.
struct Floats;

impl Arithmetic for Floats {
    type Scalar = f64;

    fn is_positive(&self, x: f64) -> bool {
        x > 0.0
    }

    fn scale(&self, width: u32, ratio: f64) -> u32 {
        (width as f64 * ratio) as u32
    }

    fn calc_boundaries(
        &self,
        image_centre: Point<f64, f64>,
        xlen_real: f64,
        ratio: f64,
    ) -> (Point<f64, f64>, Point<f64, f64>) {
        let ylen_real = xlen_real * ratio;
        (
            Point::new(image_centre.x - xlen_real / 2.0, image_centre.y - ylen_real / 2.0),
            Point::new(image_centre.x + xlen_real / 2.0, image_centre.y + ylen_real / 2.0),
        )
    }

    fn distribute(&self, i: u32, n: u32, a: f64, b: f64) -> f64 {
        a + (i as f64 / (n as f64 / (b - a)))
    }

    fn reverse(&self, x: f64, a: f64, b: f64) -> f64 {
        b - (x - a)
    }

    fn in_main_bulb(&self, start: Point<f64, f64>) -> bool {
        let Point { x: c, y: d } = start;
        let cdot = c.powi(2) + d.powi(2);
        let not_in_main_bulb = (256.0 * cdot * cdot - 96.0 * cdot + 32.0 * c - 3.0 >= 0.0)
            && (16.0 * (cdot + 2.0 * c + 1.0) - 1.0 >= 0.0);
        !not_in_main_bulb
    }

    fn quadratic(&self, z: Point<f64, f64>, c: Point<f64, f64>) -> Point<f64, f64> {
        Point::new(z.x.powi(2) - z.y.powi(2) + c.x, 2.0 * z.x * z.y + c.y)
    }

    fn folded(&self, z: Point<f64, f64>, c: Point<f64, f64>) -> Point<f64, f64> {
        Point::new(z.x.powi(2) - z.y.powi(2) + c.x, (2.0 * z.x * z.y).abs() + c.y)
    }

    fn bounded(&self, z: Point<f64, f64>) -> bool {
        z.x.powi(2) + z.y.powi(2) < 4.0
    }

    fn estimate(&self, z: Point<f64, f64>, iterations: usize) -> f64 {
        f64::max(
            0.0,
            iterations as f64 + 1.0 - (z.x.powi(2) + z.y.powi(2)).sqrt().ln().ln() / f64::ln(2.0),
        )
    }

    fn whole(&self, mu: f64) -> usize {
        mu as usize
    }

    fn fract(&self, mu: f64) -> f64 {
        mu.fract().abs()
    }

    fn lerp(&self, c1: u8, c2: u8, f: f64) -> u8 {
        ((c1 as f64) * (1.0 - f) + (c2 as f64) * f) as u8
    }
}

/// An arithmetic whose estimates are whole numbers and whose blend is plain to check.
struct Sums;

impl Arithmetic for Sums {
    type Scalar = u64;

    fn is_positive(&self, x: u64) -> bool {
        x > 0
    }

    fn scale(&self, width: u32, ratio: u64) -> u32 {
        width * ratio as u32
    }

    fn calc_boundaries(
        &self,
        image_centre: Point<u64, u64>,
        _xlen_real: u64,
        _ratio: u64,
    ) -> (Point<u64, u64>, Point<u64, u64>) {
        (image_centre, image_centre)
    }

    fn distribute(&self, i: u32, _n: u32, a: u64, _b: u64) -> u64 {
        a + i as u64
    }

    fn reverse(&self, x: u64, _a: u64, _b: u64) -> u64 {
        x
    }

    fn in_main_bulb(&self, _start: Point<u64, u64>) -> bool {
        false
    }

    fn quadratic(&self, z: Point<u64, u64>, _c: Point<u64, u64>) -> Point<u64, u64> {
        z
    }

    fn folded(&self, z: Point<u64, u64>, _c: Point<u64, u64>) -> Point<u64, u64> {
        z
    }

    fn bounded(&self, _z: Point<u64, u64>) -> bool {
        false
    }

    fn estimate(&self, _z: Point<u64, u64>, iterations: usize) -> u64 {
        iterations as u64
    }

    /// The estimate is its own whole part.
    fn whole(&self, mu: u64) -> usize {
        mu as usize
    }

    /// The last decimal digit of the estimate stands in for its fraction.
    fn fract(&self, mu: u64) -> u64 {
        mu % 10
    }

    /// The first channel, less the second, plus the fraction.
    fn lerp(&self, c1: u8, c2: u8, f: u64) -> u8 {
        c1.wrapping_sub(c2).wrapping_add(f as u8)
    }
}

fn rgb(r: u8, g: u8, b: u8) -> Pixel {
    Pixel { r, g, b }
}

fn sample() -> Palette {
    Palette::new(vec![rgb(0, 0, 0), rgb(255, 255, 255), rgb(10, 200, 31), rgb(7, 8, 9)]).unwrap()
}

#[test]
fn discrete_indexes_modulo_the_length() {
    let palette = sample();
    assert_eq!(discrete(0, &palette), rgb(0, 0, 0));
    assert_eq!(discrete(1, &palette), rgb(255, 255, 255));
    assert_eq!(discrete(3, &palette), rgb(7, 8, 9));
    assert_eq!(discrete(4, &palette), rgb(0, 0, 0));
    assert_eq!(discrete(6, &palette), rgb(10, 200, 31));
    assert_eq!(discrete(usize::MAX, &palette), rgb(7, 8, 9));
}

#[test]
fn discrete_wraps_around_the_palette() {
    let palette = sample();
    for k in 0..64 {
        assert_eq!(discrete(k, &palette), discrete(k + palette.len(), &palette));
    }
}

#[test]
fn discrete_agrees_with_walking_the_cycle() {
    let palette = sample();
    for k in 0..64 {
        let walked = *palette.colours().iter().cycle().nth(k).unwrap();
        assert_eq!(discrete(k, &palette), walked);
    }
}

#[test]
fn single_entry_palette_has_one_colour() {
    let palette = Palette::new(vec![rgb(9, 8, 7)]).unwrap();
    for k in [0usize, 1, 2, 1000, usize::MAX] {
        assert_eq!(discrete(k, &palette), rgb(9, 8, 7));
    }
    for mu in [0.0, 0.25, 0.5, 3.999, 17.75] {
        assert_eq!(smooth(mu, &palette, &Floats), rgb(9, 8, 7));
    }
}

#[test]
fn smooth_at_a_whole_estimate_is_discrete() {
    let palette = sample();
    for i in 0..40usize {
        assert_eq!(smooth(i as f64, &palette, &Floats), discrete(i, &palette));
    }
}

#[test]
fn smooth_half_way_is_the_mean() {
    let palette = sample();
    for i in 0..40usize {
        let from = discrete(i, &palette);
        let to = discrete(i + 1, &palette);
        let p = smooth(i as f64 + 0.5, &palette, &Floats);
        for (a, b, c) in [(from.r, to.r, p.r), (from.g, to.g, p.g), (from.b, to.b, p.b)] {
            let twice = 2 * c as i32 - (a as i32 + b as i32);
            assert!((-2..=2).contains(&twice), "{} {} {}", a, b, c);
        }
    }
    assert_eq!(smooth(0.5, &palette, &Floats), rgb(127, 127, 127));
    assert_eq!(smooth(1.5, &palette, &Floats), rgb(132, 227, 143));
}

#[test]
fn smooth_blends_neighbouring_entries() {
    let palette = sample();
    assert_eq!(smooth(0.25, &palette, &Floats), rgb(63, 63, 63));
    assert_eq!(smooth(2.75, &palette, &Floats), rgb(7, 56, 14));
    assert_eq!(smooth(3.5, &palette, &Floats), rgb(3, 4, 4));
    assert_eq!(smooth(7.5, &palette, &Floats), rgb(3, 4, 4));
}

#[test]
fn smooth_wraps_at_the_largest_whole_part() {
    let palette = sample();
    // u64::MAX is one less than a multiple of 4 and ends in 5: the last entry is blended
    // with the first.
    assert_eq!(smooth(u64::MAX, &palette, &Sums), rgb(12, 13, 14));
    assert_eq!(smooth(2, &palette, &Sums), rgb(5, 194, 24));
}

#[test]
fn smooth_blends_each_channel_with_its_own() {
    let palette = Palette::new(vec![rgb(1, 2, 3), rgb(10, 20, 30)]).unwrap();
    // whole part 20, fraction 0: the first entry less the second
    assert_eq!(smooth(20, &palette, &Sums), rgb(247, 238, 229));
    // whole part 21, fraction 1: the second entry less the first, plus one
    assert_eq!(smooth(21, &palette, &Sums), rgb(10, 19, 28));
    // whole part 7, fraction 7
    assert_eq!(smooth(7, &palette, &Sums), rgb(16, 25, 34));
}
