use epher::datasize::{Datasize, DatasizeFormat};

#[test]
fn test() {
    println!("{}", Datasize::try_from("2GiB").unwrap().to_display_string());
}

#[test]
fn parse_raw_zero() {
    assert_eq!(Datasize::try_from("0").unwrap().value, 0);
}

#[test]
fn parse_binary_k() {
    assert_eq!(Datasize::try_from("1K").unwrap().value, 1024);
}

#[test]
fn parse_decimal_kb() {
    assert_eq!(Datasize::try_from("1KB").unwrap().value, 1000);
}

#[test]
fn parse_iec_kib() {
    assert_eq!(Datasize::try_from("1KiB").unwrap().value, 1024);
}

#[test]
fn parse_unknown_suffix_fails() {
    assert!(Datasize::try_from("5X").is_err());
}

#[test]
fn parse_more_units() {
    assert_eq!(Datasize::try_from("2GiB").unwrap().value, 2 * 1024 * 1024 * 1024);
    assert_eq!(Datasize::try_from("3MB").unwrap().value, 3_000_000);
    assert_eq!(Datasize::try_from("7").unwrap().value, 7);
    assert_eq!(Datasize::try_from("4B").unwrap().value, 4);
    assert_eq!(Datasize::try_from("1P").unwrap().value, 1u64 << 50);
}

#[test]
fn parse_rejects_bad_shapes() {
    assert!(Datasize::try_from("").is_err());
    assert!(Datasize::try_from("KB").is_err());
    assert!(Datasize::try_from("1kb").is_err());
    assert!(Datasize::try_from("1KiBx").is_err());
    assert!(Datasize::try_from("1.5K").is_err());
}

#[test]
fn parse_overflow_fails() {
    // matches the grammar, but does not fit 64 bits
    assert!(Datasize::is_datasize_string(&String::from("99999999999999999999999")));
    assert!(Datasize::try_from("99999999999999999999999").is_err());
    assert!(Datasize::try_from("18446744073709551615").is_ok());
    assert!(Datasize::try_from("18446744073709551616").is_err());
}

#[test]
fn is_datasize_string_matches_grammar() {
    assert!(Datasize::is_datasize_string(&String::from("123")));
    assert!(Datasize::is_datasize_string(&String::from("10TiB")));
    assert!(!Datasize::is_datasize_string(&String::from("5X")));
    assert!(!Datasize::is_datasize_string(&String::from("")));
}

#[test]
fn format_picks_unit_and_rounds() {
    // 2560 bytes = 2.50 K in the binary table
    let (n, u) = Datasize::new(2560).with_unit_string(100, DatasizeFormat::Bin);
    assert_eq!(n, 250);
    assert_eq!(u, "K");
    // 2 GiB displays exactly
    let (n, u) = Datasize::new(2147483648).with_unit_string(100, DatasizeFormat::BinIec);
    assert_eq!(n, 200);
    assert_eq!(u, "GiB");
    // decimal table
    let (n, u) = Datasize::new(1500).with_unit_string(100, DatasizeFormat::Dec);
    assert_eq!(n, 150);
    assert_eq!(u, "KB");
    // small values keep the raw-byte unit
    let (n, u) = Datasize::new(0).with_unit_string(100, DatasizeFormat::Dec);
    assert_eq!(n, 0);
    assert_eq!(u, "B");
}

#[test]
fn display_string_uses_binary_table() {
    assert_eq!(Datasize::try_from("2GiB").unwrap().to_display_string(), "2.00G");
    assert_eq!(Datasize::new(512).to_display_string(), "512.00");
}

#[test]
fn format_then_parse_round_trips() {
    // a count that scales exactly survives the round trip to the character
    let v: u64 = 2 * 1024 * 1024 * 1024;
    let (n, u) = Datasize::new(v).with_unit_string(100, DatasizeFormat::BinIec);
    assert_eq!(n % 100, 0);
    let rendered = format!("{}{}", n / 100, u);
    assert_eq!(Datasize::try_from(rendered.as_str()).unwrap().value, v);

    // an inexact count comes back within one rounding unit of the chosen scale
    let v: u64 = 2500;
    let (n, u) = Datasize::new(v).with_unit_string(1, DatasizeFormat::Bin);
    assert_eq!(u, "K");
    assert_eq!(n, 2); // 2500 / 1024 rounds to 2
    let rendered = format!("{}{}", n, u);
    let back = Datasize::try_from(rendered.as_str()).unwrap().value;
    // one rounding unit here is 1024 bytes
    assert!(back <= v + 1024 && v <= back + 1024);
}

#[test]
fn calc_from_prefix_ranks() {
    assert_eq!(Datasize::calc_from_prefix(3, "KB", 1000), 3000);
    assert_eq!(Datasize::calc_from_prefix(1, "MiB", 1024), 1024 * 1024);
    assert_eq!(Datasize::calc_from_prefix(2, "G", 1024), 2 * 1024 * 1024 * 1024);
    // an unknown letter exhausts the whole prefix list
    assert_eq!(Datasize::calc_from_prefix(1, "Q", 10), 1_000_000);
}
