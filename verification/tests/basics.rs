use er_bench::bytes::push_le_u64;
use er_bench::chunks::chunk_ranges;
use er_bench::text::{decimal_string, join_path};

#[test]
fn decimals_are_written_without_leading_zeros() {
    assert_eq!(decimal_string(0), "0");
    assert_eq!(decimal_string(9), "9");
    assert_eq!(decimal_string(10), "10");
    assert_eq!(decimal_string(1_000_000), "1000000");
    assert_eq!(decimal_string(u64::MAX), "18446744073709551615");
}

#[test]
fn different_numbers_are_written_differently() {
    let mut seen: Vec<String> = Vec::new();
    for n in 0..1200u64 {
        let text = decimal_string(n);
        assert_eq!(text, n.to_string());
        assert!(!seen.contains(&text));
        seen.push(text);
    }
}

#[test]
fn paths_are_joined_with_one_separator() {
    assert_eq!(join_path("/repo", "configs"), "/repo/configs");
    assert_eq!(join_path("/repo/", "configs"), "/repo/configs");
    assert_eq!(join_path("/", "configs"), "/configs");
    assert_eq!(join_path("", "configs"), "configs");
    assert_eq!(join_path(".run", "er-0"), ".run/er-0");
    assert_eq!(
        join_path("/répo", "a/b"),
        std::path::Path::new("/répo").join("a/b").to_str().unwrap()
    );
}

#[test]
fn amounts_are_little_endian() {
    for amount in [0, 1, 255, 256, 1_000_000_000, u64::MAX] {
        let mut out = vec![7u8];
        push_le_u64(&mut out, amount);
        assert_eq!(out[0], 7);
        assert_eq!(out[1..], amount.to_le_bytes());
        assert_eq!(u64::from_le_bytes(out[1..].try_into().unwrap()), amount);
    }
}

#[test]
fn chunks_cover_every_item_once() {
    assert_eq!(chunk_ranges(0, 3), Vec::<(usize, usize)>::new());
    assert_eq!(chunk_ranges(7, 3), vec![(0, 3), (3, 6), (6, 7)]);
    assert_eq!(chunk_ranges(6, 3), vec![(0, 3), (3, 6)]);
    assert_eq!(chunk_ranges(2, 100), vec![(0, 2)]);
    for item in 0..7usize {
        let holders = chunk_ranges(7, 3)
            .iter()
            .filter(|(start, end)| *start <= item && item < *end)
            .count();
        assert_eq!(holders, 1);
    }
}
