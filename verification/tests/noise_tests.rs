use orrery::noise::{fractal_noise, hash, value_noise};

const ONE: i64 = 65536;

#[test]
fn hash_is_deterministic() {
    for i in 0..64u32 {
        let x = i.wrapping_mul(2654435761);
        assert_eq!(hash(x), hash(x));
    }
}

#[test]
fn hash_known_values() {
    // 0 * 1664525 + 1013904223 = 0x3C6EF35F; xorshift-16 folds in 0x3C6E
    assert_eq!(hash(0), 0x3C6ECF31);
    assert_ne!(hash(0), hash(1));
}

#[test]
fn hash_is_not_constant_over_a_window() {
    let h0 = hash(123);
    let mut all_same = true;
    for i in 124..200u32 {
        if hash(i) != h0 {
            all_same = false;
        }
    }
    assert!(!all_same);
}

#[test]
fn value_noise_stays_in_the_unit_interval() {
    for i in -5000..5000i64 {
        let v = value_noise(i);
        assert!((0..ONE).contains(&v), "value_noise({i}) = {v}");
    }
}

#[test]
fn value_noise_is_roughly_uniform() {
    // across many sequential inputs the distribution approximates
    // uniform on [0, 1): the mean sits near one half and every
    // sixteenth of the interval is populated
    let n: i64 = 4096;
    let mut sum: i64 = 0;
    let mut buckets = [0u32; 16];
    for i in 0..n {
        let v = value_noise(i);
        sum += v;
        buckets[(v / (ONE / 16)) as usize] += 1;
    }
    let mean = sum / n;
    assert!(
        (mean - ONE / 2).abs() < ONE / 16,
        "mean {mean} strays from one half"
    );
    for (b, count) in buckets.iter().enumerate() {
        let expected = (n as u32) / 16;
        assert!(
            *count > expected / 4 && *count < expected * 4,
            "bucket {b} holds {count} of {n}"
        );
    }
}

#[test]
fn fractal_noise_is_deterministic_and_bounded() {
    for k in -300..300i64 {
        let x = k * 3511;
        let a = fractal_noise(x);
        let b = fractal_noise(x);
        assert_eq!(a, b);
        assert!((0..63488).contains(&a), "fractal_noise({x}) = {a}");
    }
}

#[test]
fn fractal_noise_is_continuous_in_small_steps() {
    // one-ulp steps move the output by a few ulps at most, also when
    // the input walks across integer lattice points
    for k in -2000..2000i64 {
        let x = 3 * ONE - 2000 + k;
        let d = (fractal_noise(x + 1) - fractal_noise(x)).abs();
        assert!(d <= 8, "jump of {d} at {x}");
    }
    for k in 0..500i64 {
        let x = -2 * ONE - 250 + k;
        let d = (fractal_noise(x + 1) - fractal_noise(x)).abs();
        assert!(d <= 8, "jump of {d} at {x}");
    }
}

#[test]
fn fractal_noise_shrinking_steps_shrink_the_change() {
    let x: i64 = 7 * ONE + 12345;
    for &step in &[4096i64, 512, 64, 8, 1] {
        let d = (fractal_noise(x + step) - fractal_noise(x)).abs();
        assert!(d <= 3 * step + 5, "step {step} moved the output by {d}");
    }
}

#[test]
fn fractal_noise_varies() {
    let mut distinct = std::collections::HashSet::new();
    for k in 0..64i64 {
        distinct.insert(fractal_noise(k * 40961));
    }
    assert!(distinct.len() > 16);
}
