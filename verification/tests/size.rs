use dlssdl::ngx::human_size;

/// The size as double precision arithmetic and formatting give it.
fn by_doubles(bytes: u64) -> String {
    let units = ["B", "KB", "MB", "GB", "TB"];
    let mut v = bytes as f64;
    let mut u = 0;
    while v >= 1024.0 && u < units.len() - 1 {
        v /= 1024.0;
        u += 1;
    }
    if u == 0 {
        format!("{bytes} B")
    } else {
        format!("{v:.1} {}", units[u])
    }
}

#[test]
fn small_sizes() {
    for n in 0..300_000 {
        assert_eq!(human_size(n), by_doubles(n));
    }
}

#[test]
fn ties_go_to_the_even_tenth() {
    // 1.25 KB and 1.75 KB lie halfway between two tenths.
    assert_eq!(human_size(1280), "1.2 KB");
    assert_eq!(human_size(1792), "1.8 KB");
    assert_eq!(human_size(1024 * 1024 + 256 * 1024), "1.2 MB");
}

#[test]
fn borders_of_units() {
    assert_eq!(human_size(0), "0 B");
    assert_eq!(human_size(1023), "1023 B");
    assert_eq!(human_size(1024), "1.0 KB");
    assert_eq!(human_size(1048575), "1024.0 KB");
    assert_eq!(human_size(1048576), "1.0 MB");
    assert_eq!(human_size(1 << 30), "1.0 GB");
    assert_eq!(human_size(1 << 40), "1.0 TB");
    assert_eq!(human_size(1 << 50), "1024.0 TB");
    assert_eq!(human_size(u64::MAX), by_doubles(u64::MAX));
}

#[test]
fn large_sizes() {
    // Around every power of two, and between, also where doubles are coarse.
    for e in 10..64u32 {
        let p: u64 = 1 << e;
        for d in 0..2000u64 {
            for n in [p.wrapping_add(d), p.wrapping_sub(d), p.wrapping_add(d.wrapping_mul(p / 4096 + 1))] {
                assert_eq!(human_size(n), by_doubles(n), "{n}");
            }
        }
    }
}

#[test]
fn scattered_sizes() {
    let mut x: u64 = 0x9E3779B97F4A7C15;
    for _ in 0..200_000 {
        x ^= x << 13;
        x ^= x >> 7;
        x ^= x << 17;
        for s in [0, 11, 12, 23, 33] {
            assert_eq!(human_size(x >> s), by_doubles(x >> s), "{}", x >> s);
        }
    }
}
