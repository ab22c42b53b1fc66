use iotactl::civil::{civil_from_days, days_from_civil};
use iotactl::fs_format::{format_permissions, format_time, human_size, rwx_triplet};

fn float_human_size(bytes: u64) -> String {
    if bytes == 0 {
        return "0B".to_string();
    }
    const UNITS: [&str; 6] = ["B", "K", "M", "G", "T", "P"];
    let mut size = bytes as f64;
    let mut unit = 0;
    while size >= 1024.0 && unit < UNITS.len() - 1 {
        size /= 1024.0;
        unit += 1;
    }
    if unit == 0 {
        format!("{bytes}B")
    } else {
        format!("{size:.1}{}", UNITS[unit])
    }
}

#[test]
fn human_size_matches_float_formatting() {
    let samples: Vec<u64> = vec![
        0, 1, 512, 1023, 1024, 1025, 1536, 1075, 1076, 10 * 1024 + 51, 1048575, 1048576, 1572864,
        5 * 1024 * 1024 * 1024, 123456789, 987654321012, u64::MAX, u64::MAX / 3, 1 << 50, (1 << 60) + 12345,
    ];
    for b in samples {
        assert_eq!(human_size(b), float_human_size(b), "bytes = {b}");
    }
    let mut x: u64 = 1;
    for _ in 0..2000 {
        x = x.wrapping_mul(6364136223846793005).wrapping_add(1442695040888963407);
        let b = x >> (x % 60);
        assert_eq!(human_size(b), float_human_size(b), "bytes = {b}");
    }
}

#[test]
fn human_size_examples() {
    assert_eq!(human_size(0), "0B");
    assert_eq!(human_size(512), "512B");
    assert_eq!(human_size(1536), "1.5K");
    assert_eq!(human_size(2 * 1024 * 1024), "2.0M");
}

#[test]
fn permissions_render_like_ls() {
    assert_eq!(rwx_triplet(0o7), "rwx");
    assert_eq!(rwx_triplet(0o5), "r-x");
    assert_eq!(format_permissions(0o100644), "644 (rw-r--r--)");
    assert_eq!(format_permissions(0o40755), "755 (rwxr-xr-x)");
    assert_eq!(format_permissions(0o4700), "700 (rwx------)");
    assert_eq!(format_permissions(0o7), "007 (------rwx)");
}

#[test]
fn times_render_in_utc() {
    assert_eq!(format_time(0), "1970-01-01 00:00:00 UTC");
    assert_eq!(format_time(1709209815), "2024-02-29 12:30:15 UTC");
    assert_eq!(format_time(-1), "1969-12-31 23:59:59 UTC");
}

#[test]
fn civil_of_days_gives_the_date_back() {
    let dates: [(i64, u32, u32); 9] = [
        (1970, 1, 1),
        (1969, 12, 31),
        (2000, 2, 29),
        (2000, 3, 1),
        (1900, 2, 28),
        (1900, 3, 1),
        (2024, 2, 29),
        (-1, 12, 31),
        (9999, 12, 31),
    ];
    for (y, m, d) in dates {
        assert_eq!(civil_from_days(days_from_civil(y, m, d)), (y, m, d));
    }
    assert_eq!(days_from_civil(2000, 3, 1), 11017);
    assert_eq!(civil_from_days(-1), (1969, 12, 31));
}

#[test]
fn civil_dates_round_trip() {
    for z in [-1000000i64, -719468, -1, 0, 1, 59, 365, 11016, 19782, 2932896] {
        let (y, m, d) = civil_from_days(z);
        assert_eq!(days_from_civil(y, m, d), z, "day {z}");
    }
    assert_eq!(civil_from_days(0), (1970, 1, 1));
    assert_eq!(civil_from_days(19782), (2024, 2, 29));
}
