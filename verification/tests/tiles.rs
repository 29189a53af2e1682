use rustybar::text::ParseIntError;
use rustybar::tiles::battery::{battery_block, battery_percentage, parse_charge, status_text};
use rustybar::tiles::hostname::hostname_block;
use rustybar::tiles::load::load_block;
use rustybar::tiles::memory::{extract_value, memory_block, memory_block_from_text, prettify_kib};
use rustybar::config::Interval;
use rustybar::config::TimeConfig;
use rustybar::tiles::time::{pause_until_next_second, time_block, time_tile, LocalTime};
use rustybar::tiles::TileError;

const MEMINFO: &str = "MemTotal:       16314452 kB\nMemFree:         1024000 kB\nMemAvailable:    8157226 kB\nBuffers:          412345 kB\n";

#[test]
fn prettify_kib_units() {
    assert_eq!(prettify_kib(0), "0 kiB");
    assert_eq!(prettify_kib(1023), "1023 kiB");
    assert_eq!(prettify_kib(1024), "1 MiB");
    assert_eq!(prettify_kib(1048575), "1023 MiB");
    assert_eq!(prettify_kib(1048576), "1 GiB");
    assert_eq!(prettify_kib(16314452), "15 GiB");
    assert_eq!(prettify_kib(0x40000000), "1 TiB");
    assert_eq!(prettify_kib(0x10000000000), "1 PiB");
    assert_eq!(prettify_kib(0x4000000000000), "1 EiB");
    assert_eq!(prettify_kib(0xfffffffffffffff), "1023 EiB");
    assert_eq!(prettify_kib(0x1000000000000000), "1 ZiB");
    assert_eq!(prettify_kib(u64::MAX), "15 ZiB");
}

#[test]
fn extract_value_reads_second_field() {
    assert_eq!(extract_value("MemTotal:       16314452 kB"), Ok(16314452));
    assert_eq!(extract_value("a 7"), Ok(7));
    assert_eq!(extract_value("MemTotal:"), Err(TileError::InvalidData));
    assert_eq!(extract_value(""), Err(TileError::InvalidData));
    assert_eq!(extract_value("a b"), Err(TileError::ParseInt(ParseIntError::InvalidDigit)));
    assert_eq!(
        extract_value("x 99999999999999999999"),
        Err(TileError::ParseInt(ParseIntError::PosOverflow))
    );
}

#[test]
fn memory_block_from_meminfo() {
    let b = memory_block_from_text(MEMINFO).unwrap();
    assert_eq!(b.full_text, "7 GiB avail / 15 GiB");
    assert_eq!(b.short_text.as_deref(), Some("7 GiB / 15 GiB"));
    assert_eq!(b.name, "memory");
    assert_eq!(b.instance, "");
}

#[test]
fn memory_block_from_bytes() {
    let mut raw = MEMINFO.as_bytes().to_vec();
    raw.resize(256, b' ');
    let b = memory_block(&raw).unwrap();
    assert_eq!(b.full_text, "7 GiB avail / 15 GiB");
    assert_eq!(memory_block(&[0xff, 0xfe]).unwrap_err(), TileError::Utf8);
}

#[test]
fn memory_block_errors() {
    assert_eq!(memory_block_from_text("MemTotal: 5 kB\nMemFree: 1 kB").unwrap_err(), TileError::InvalidData);
    assert_eq!(memory_block_from_text("").unwrap_err(), TileError::InvalidData);
    assert_eq!(
        memory_block_from_text("MemTotal: x kB\n").unwrap_err(),
        TileError::ParseInt(ParseIntError::InvalidDigit)
    );
    assert_eq!(
        memory_block_from_text("MemTotal: 5 kB\nMemFree: 1 kB\nMemAvailable:").unwrap_err(),
        TileError::InvalidData
    );
}

#[test]
fn battery_charge_and_status() {
    assert_eq!(parse_charge("4500000\n"), Ok(4500000));
    assert_eq!(parse_charge("abc\n"), Err(TileError::ParseInt(ParseIntError::InvalidDigit)));
    assert_eq!(parse_charge("\n"), Err(TileError::ParseInt(ParseIntError::Empty)));
    assert_eq!(parse_charge("4294967296"), Err(TileError::ParseInt(ParseIntError::PosOverflow)));
    assert_eq!(status_text("Charging\n"), "Charging");
    assert_eq!(status_text("Not charging \n"), "Not charging");
}

#[test]
fn battery_percent_rounds_down() {
    assert_eq!(battery_percentage(2, 3), 66);
    assert_eq!(battery_percentage(3000000, 4000000), 75);
    assert_eq!(battery_percentage(0, 1), 0);
}

#[test]
fn battery_block_text() {
    let b = battery_block(3000000, 4000000, "Discharging\n");
    assert_eq!(b.full_text, "75% Discharging");
    assert_eq!(b.short_text.as_deref(), Some("75%"));
    assert_eq!(b.name, "battery");
}

#[test]
fn load_block_first_field() {
    let b = load_block("0.52 0.58 0.59 1/1021 12345\n");
    assert_eq!(b.full_text, "0.52");
    assert_eq!(b.short_text, None);
    assert_eq!(b.name, "load");
    assert_eq!(load_block("nospace").full_text, "");
    assert_eq!(load_block("").full_text, "");
}

#[test]
fn hostname_and_time_blocks() {
    let h = hostname_block("box".to_string());
    assert_eq!(h.full_text, "box");
    assert_eq!(h.short_text, None);
    assert_eq!(h.name, "hostname");
    let t = time_block("2024-01-02 03:04:05".to_string(), "03:04:05".to_string());
    assert_eq!(t.full_text, "2024-01-02 03:04:05");
    assert_eq!(t.short_text.as_deref(), Some("03:04:05"));
    assert_eq!(t.name, "time");
}

#[test]
fn time_waits_for_next_second() {
    assert_eq!(pause_until_next_second(0), Interval { secs: 1, nanos: 0 });
    assert_eq!(pause_until_next_second(250_000_000), Interval { secs: 0, nanos: 750_000_000 });
    assert_eq!(pause_until_next_second(999_999_999), Interval { secs: 0, nanos: 1 });
}

fn reading(month: u32) -> LocalTime {
    LocalTime {
        year: 2024,
        month,
        day: 2,
        hour: 3,
        minute: 4,
        second: 5,
        nanosecond: 250_000_000,
        offset_secs: 3600,
    }
}

#[test]
fn time_tile_formats_the_reading() {
    let b = time_tile(&reading(1), &TimeConfig::default()).unwrap();
    assert_eq!(b.full_text, "2024-01-02 03:04:05");
    assert_eq!(b.short_text.as_deref(), Some("03:04:05"));
    assert_eq!(b.name, "time");
    let c = TimeConfig { format: "%d.%m. %z".to_string(), short_format: "%H%M".to_string() };
    let b = time_tile(&reading(1), &c).unwrap();
    assert_eq!(b.full_text, "02.01. +0100");
    assert_eq!(b.short_text.as_deref(), Some("0304"));
}

#[test]
fn time_tile_fails_where_chrono_cannot_write() {
    let bad = TimeConfig { format: "%Y %Q".to_string(), short_format: "%H".to_string() };
    assert!(time_tile(&reading(1), &bad).is_none());
    let bad_short = TimeConfig { format: "%Y".to_string(), short_format: "%Q".to_string() };
    assert!(time_tile(&reading(1), &bad_short).is_none());
    assert!(time_tile(&reading(13), &TimeConfig::default()).is_none());
}

#[test]
fn tile_error_messages() {
    assert_eq!(TileError::InvalidData.message(), "invalid data");
    assert_eq!(TileError::Utf8.message(), "invalid utf-8 sequence");
    for (e, s) in [
        (ParseIntError::Empty, ""),
        (ParseIntError::InvalidDigit, "x"),
        (ParseIntError::PosOverflow, "99999999999999999999"),
    ] {
        let std_message = s.parse::<u64>().unwrap_err().to_string();
        assert_eq!(e.message(), std_message);
        assert_eq!(TileError::ParseInt(e).message(), std_message);
    }
}
