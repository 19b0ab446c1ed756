use phosphor::nav::{
    detect_type, format_age, format_modified, format_perms, format_size, sort_entries, FileEntry,
};
use std::time::{Duration, SystemTime};

fn float_reference(bytes: u64) -> String {
    const KIB: u64 = 1024;
    const MIB: u64 = 1024 * KIB;
    const GIB: u64 = 1024 * MIB;
    if bytes >= GIB {
        format!("{:.1}G", bytes as f64 / GIB as f64)
    } else if bytes >= MIB {
        format!("{:.1}M", bytes as f64 / MIB as f64)
    } else if bytes >= KIB {
        format!("{:.1}K", bytes as f64 / KIB as f64)
    } else {
        format!("{}B", bytes)
    }
}

#[test]
fn format_size_examples() {
    assert_eq!(format_size(0), "0B");
    assert_eq!(format_size(1023), "1023B");
    assert_eq!(format_size(1024), "1.0K");
    assert_eq!(format_size(1536), "1.5K");
    assert_eq!(format_size(1024 * 1024), "1.0M");
    assert_eq!(format_size(5 * 1024 * 1024 * 1024), "5.0G");
}

#[test]
fn format_size_rounds_like_float_formatting() {
    let mut b: u64 = 0;
    while b < 200_000 {
        assert_eq!(format_size(b), float_reference(b), "{}", b);
        b += 1;
    }
    let mib: u64 = 1024 * 1024;
    let gib: u64 = 1024 * mib;
    for base in [mib, 7 * mib + 1, 999 * mib, gib - 1, gib, 3 * gib / 2, 1000 * gib] {
        for d in 0..3000u64 {
            let x = base + d * 104_857;
            assert_eq!(format_size(x), float_reference(x), "{}", x);
        }
    }
    for x in [
        u64::MAX,
        u64::MAX - 1,
        u64::MAX / 2,
        (1u64 << 53) + 1,
        (1u64 << 53) * 3 + 1,
        (1u64 << 60) + (1u64 << 39) * 5,
        1288490188,
        1181116006,
        1073741824 * 1023 + 1073741824 / 20,
    ] {
        assert_eq!(format_size(x), float_reference(x), "{}", x);
    }
}

#[test]
fn format_perms_spells_rwx() {
    assert_eq!(format_perms(0o755), "rwxr-xr-x");
    assert_eq!(format_perms(0o100644), "rw-r--r--");
    assert_eq!(format_perms(0), "---------");
    assert_eq!(format_perms(0o7777), "rwxrwxrwx");
}

#[test]
fn format_age_picks_the_unit() {
    assert_eq!(format_age(None), "in the future");
    assert_eq!(format_age(Some(0)), "0s ago");
    assert_eq!(format_age(Some(59)), "59s ago");
    assert_eq!(format_age(Some(60)), "1m ago");
    assert_eq!(format_age(Some(3599)), "59m ago");
    assert_eq!(format_age(Some(3600)), "1h ago");
    assert_eq!(format_age(Some(86400 * 3)), "3d ago");
    assert_eq!(format_age(Some(604800 * 2)), "2w ago");
    assert_eq!(format_age(Some(2592000 * 5)), "5mo ago");
    assert_eq!(format_age(Some(31536000 * 12)), "12y ago");
}

#[test]
fn detect_type_maps_extensions() {
    assert_eq!(detect_type("src/main.rs"), "rust");
    assert_eq!(detect_type("Cargo.toml"), "toml");
    assert_eq!(detect_type("a/b.yml"), "yaml");
    assert_eq!(detect_type("x.hpp"), "c++");
    assert_eq!(detect_type("photo.jpeg"), "image");
    assert_eq!(detect_type("Cargo.lock"), "lockfile");
    assert_eq!(detect_type("noext"), "file");
    assert_eq!(detect_type(".bashrc"), "file");
    assert_eq!(detect_type("x.RS"), "RS");
    assert_eq!(detect_type("archive.tar.gz"), "gz");
    assert_eq!(detect_type("foo.xyz"), "xyz");
    assert_eq!(detect_type("Makefile"), "file");
    assert_eq!(detect_type("x.h"), "c++");
}

fn entry(name: &str, is_dir: bool) -> FileEntry {
    FileEntry::new(name.to_string(), format!("/d/{}", name), is_dir, 0)
}

#[test]
fn listing_puts_directories_first_then_names_ignoring_case() {
    let sorted = sort_entries(vec![
        entry("b.txt", false),
        entry("Zeta", true),
        entry("A.txt", false),
        entry("alpha", true),
        entry(".git", true),
        entry("a.txt", false),
    ]);
    let names: Vec<&str> = sorted.iter().map(|e| e.name.as_str()).collect();
    assert_eq!(names, vec![".git", "alpha", "Zeta", "A.txt", "a.txt", "b.txt"]);
    assert!(sorted[0].is_hidden);
    assert!(!sorted[1].is_hidden);
}

#[test]
fn modified_times_are_shown_relative_to_now() {
    let two_minutes_ago = SystemTime::now() - Duration::from_secs(150);
    assert_eq!(format_modified(two_minutes_ago), "2m ago");
    let later = SystemTime::now() + Duration::from_secs(3600);
    assert_eq!(format_modified(later), "in the future");
}
