use cgroup_metrics::node::{map_parse_error, LoadError, NodeReadings};
use cgroup_metrics::stat::{
    parse_memory_current, parse_record, CpuStat, MemoryStat, ParseError,
};
use cgroup_metrics::text::{
    parse_u64, string_of, to_chars, trim, whitespace, without_end, without_start, NumberError,
    Padding,
};

fn chars(s: &str) -> Vec<char> {
    s.chars().collect()
}

#[test]
fn parses_cpu_stat() {
    let stat = CpuStat::parse("usage_usec 100\nuser_usec 40\nsystem_usec 60").unwrap();
    assert_eq!(stat, CpuStat { usage_usec: 100, user_usec: 40, system_usec: 60 });
}

#[test]
fn unrecognized_lines_are_ignored() {
    let text = "usage_usec 100\nnr_periods 0\nuser_usec 40\nnr_throttled x\nsystem_usec 60\nthrottled_usec 0\n";
    let stat = CpuStat::parse(text).unwrap();
    assert_eq!(stat, CpuStat { usage_usec: 100, user_usec: 40, system_usec: 60 });
}

#[test]
fn absent_fields_default_to_zero() {
    assert_eq!(CpuStat::parse("").unwrap(), CpuStat::default());
    assert_eq!(
        CpuStat::parse("user_usec 7\n").unwrap(),
        CpuStat { usage_usec: 0, user_usec: 7, system_usec: 0 }
    );
    assert_eq!(MemoryStat::parse("slab 5\n").unwrap(), MemoryStat { anon: 0, file: 0 });
    assert_eq!(MemoryStat::default(), MemoryStat { anon: 0, file: 0 });
}

#[test]
fn malformed_value_fails_the_parse() {
    assert_eq!(
        CpuStat::parse("usage_usec notanumber"),
        Err(ParseError::Field { line: 0, field: 0, kind: NumberError::InvalidDigit })
    );
    assert_eq!(
        CpuStat::parse("user_usec 1\nfoo bar\nsystem_usec -3\nusage_usec 5"),
        Err(ParseError::Field { line: 2, field: 2, kind: NumberError::InvalidDigit })
    );
    assert_eq!(
        MemoryStat::parse("anon 1\nfile 18446744073709551616\n"),
        Err(ParseError::Field { line: 1, field: 1, kind: NumberError::PosOverflow })
    );
}

#[test]
fn value_must_follow_one_space() {
    assert_eq!(
        CpuStat::parse("usage_usec  5"),
        Err(ParseError::Field { line: 0, field: 0, kind: NumberError::InvalidDigit })
    );
    assert_eq!(
        CpuStat::parse("usage_usec 5 "),
        Err(ParseError::Field { line: 0, field: 0, kind: NumberError::InvalidDigit })
    );
    assert_eq!(
        CpuStat::parse("usage_usec "),
        Err(ParseError::Field { line: 0, field: 0, kind: NumberError::Empty })
    );
    // Without the space the key is another key.
    assert_eq!(CpuStat::parse("usage_usec").unwrap(), CpuStat::default());
    assert_eq!(CpuStat::parse("usage_usecs 5").unwrap(), CpuStat::default());
    assert_eq!(CpuStat::parse(" usage_usec 5").unwrap(), CpuStat::default());
    assert_eq!(CpuStat::parse("usage_usec\t5").unwrap(), CpuStat::default());
}

#[test]
fn last_line_of_a_key_wins() {
    assert_eq!(
        MemoryStat::parse("anon 1\nfile 2\nanon 3\n").unwrap(),
        MemoryStat { anon: 3, file: 2 }
    );
}

#[test]
fn lines_may_end_with_carriage_return_and_line_feed() {
    assert_eq!(
        MemoryStat::parse("anon 1\r\nfile 2\r\n").unwrap(),
        MemoryStat { anon: 1, file: 2 }
    );
    // A carriage return that no line feed follows belongs to the line.
    assert_eq!(
        MemoryStat::parse("anon 1\r\nfile 2\r"),
        Err(ParseError::Field { line: 1, field: 1, kind: NumberError::InvalidDigit })
    );
    assert_eq!(MemoryStat::parse("\n\nanon 9\n\n").unwrap(), MemoryStat { anon: 9, file: 0 });
}

#[test]
fn parses_memory_stat() {
    let text = "anon 600000\nfile 400000\nkernel_stack 16384\nfile_mapped 1\n";
    assert_eq!(MemoryStat::parse(text).unwrap(), MemoryStat { anon: 600000, file: 400000 });
}

#[test]
fn record_parser_takes_any_keys() {
    let fields = vec![chars("a"), chars("ab"), chars("b")];
    let text = chars("ab 2\nb 3\na 1\nabc 9\n");
    assert_eq!(parse_record(&text, &fields), Ok(vec![1, 2, 3]));
    assert_eq!(parse_record(&chars(""), &fields), Ok(vec![0, 0, 0]));
    assert_eq!(parse_record(&text, &Vec::new()), Ok(Vec::new()));
    assert_eq!(
        parse_record(&chars("x 1\nb +\n"), &fields),
        Err(ParseError::Field { line: 1, field: 2, kind: NumberError::InvalidDigit })
    );
}

#[test]
fn parses_memory_current() {
    assert_eq!(parse_memory_current("1048576"), Ok(1048576));
    assert_eq!(parse_memory_current("1048576\n"), Ok(1048576));
    assert_eq!(parse_memory_current(" \t42\r\n"), Ok(42));
    assert_eq!(parse_memory_current("\u{3000}7\u{a0}"), Ok(7));
    assert_eq!(parse_memory_current("max\n"), Err(ParseError::Scalar { kind: NumberError::InvalidDigit }));
    assert_eq!(parse_memory_current("   "), Err(ParseError::Scalar { kind: NumberError::Empty }));
    assert_eq!(parse_memory_current("4 2"), Err(ParseError::Scalar { kind: NumberError::InvalidDigit }));
}

#[test]
fn parses_unsigned_numbers() {
    assert_eq!(parse_u64(&chars("0")), Ok(0));
    assert_eq!(parse_u64(&chars("007")), Ok(7));
    assert_eq!(parse_u64(&chars("+5")), Ok(5));
    assert_eq!(parse_u64(&chars("18446744073709551615")), Ok(u64::MAX));
    assert_eq!(parse_u64(&chars("18446744073709551616")), Err(NumberError::PosOverflow));
    assert_eq!(parse_u64(&chars("99999999999999999999999")), Err(NumberError::PosOverflow));
    assert_eq!(parse_u64(&chars("")), Err(NumberError::Empty));
    assert_eq!(parse_u64(&chars("+")), Err(NumberError::InvalidDigit));
    assert_eq!(parse_u64(&chars("-")), Err(NumberError::InvalidDigit));
    assert_eq!(parse_u64(&chars("-1")), Err(NumberError::InvalidDigit));
    assert_eq!(parse_u64(&chars("++1")), Err(NumberError::InvalidDigit));
    assert_eq!(parse_u64(&chars("12a")), Err(NumberError::InvalidDigit));
    assert_eq!(parse_u64(&chars(" 1")), Err(NumberError::InvalidDigit));
    // Whichever comes first from the left decides.
    assert_eq!(parse_u64(&chars("18446744073709551616x")), Err(NumberError::PosOverflow));
    assert_eq!(parse_u64(&chars("1844674407370955161x6")), Err(NumberError::InvalidDigit));
}

#[test]
fn unsigned_numbers_agree_with_the_standard_parser() {
    let cases = [
        "", "0", "1", "+1", "-1", "+", "-", "00", "18446744073709551615",
        "18446744073709551616", "1 ", " 1", "1_000", "٣", "１", "0x10", "1e3",
        "99999999999999999999", "99999999999999999999x", "9x999999999999999999999",
    ];
    for case in cases {
        let ours = parse_u64(&chars(case)).ok();
        let theirs = case.parse::<u64>().ok();
        assert_eq!(ours, theirs);
    }
}

#[test]
fn trims_white_space() {
    assert_eq!(trim(&chars("  a b \n")), &chars("a b")[..]);
    assert_eq!(trim(&chars("")), &chars("")[..]);
    assert_eq!(trim(&chars(" \t\r\n")), &chars("")[..]);
    assert_eq!(trim(&chars("x")), &chars("x")[..]);
    let cases = ["\u{85}a\u{2003}", "\u{200b}a", "\u{1680}\u{2028}\u{2029}b\u{202f}\u{205f}", "\u{b}\u{c}z"];
    for case in cases {
        let ours: String = trim(&chars(case)).iter().collect();
        assert_eq!(ours, case.trim());
    }
}

#[test]
fn characters_of_a_string() {
    assert_eq!(to_chars("aé\u{1F600}"), vec!['a', 'é', '\u{1F600}']);
    assert!(to_chars("").is_empty());
}

#[test]
fn readings_load_statistics() {
    let readings = NodeReadings {
        cpu_stat: Some("usage_usec 1\nuser_usec 2\nsystem_usec 3\n"),
        memory_current: Some("12\n"),
        memory_stat: Some("anon 4\nfile 5\n"),
        children: None,
    };
    assert_eq!(readings.load_cpu(), Ok(CpuStat { usage_usec: 1, user_usec: 2, system_usec: 3 }));
    assert_eq!(readings.load_memory_current(), Ok(12));
    assert_eq!(readings.load_memory_stat(), Ok(MemoryStat { anon: 4, file: 5 }));
}

#[test]
fn readings_tell_unreadable_from_malformed() {
    let readings = NodeReadings {
        cpu_stat: None,
        memory_current: Some("lots"),
        memory_stat: Some("anon many\n"),
        children: None,
    };
    assert_eq!(readings.load_cpu(), Err(LoadError::Filesystem));
    assert_eq!(
        readings.load_memory_current(),
        Err(LoadError::InvalidData(ParseError::Scalar { kind: NumberError::InvalidDigit }))
    );
    assert_eq!(
        readings.load_memory_stat(),
        Err(LoadError::InvalidData(ParseError::Field {
            line: 0,
            field: 0,
            kind: NumberError::InvalidDigit
        }))
    );
    let none = NodeReadings { cpu_stat: None, memory_current: None, memory_stat: None, children: None };
    assert_eq!(none.load_memory_current(), Err(LoadError::Filesystem));
    assert_eq!(none.load_memory_stat(), Err(LoadError::Filesystem));
}

#[test]
fn parse_error_becomes_invalid_data() {
    let error = ParseError::Scalar { kind: NumberError::Empty };
    assert_eq!(map_parse_error(error), LoadError::InvalidData(error));
}

/// The record as reading line by line with the standard library gives it.
fn line_by_line(text: &str) -> Option<CpuStat> {
    let mut result = CpuStat::default();
    for line in text.lines() {
        if line.starts_with("usage_usec ") {
            result.usage_usec = line["usage_usec".len() + 1..].parse().ok()?;
        } else if line.starts_with("user_usec ") {
            result.user_usec = line["user_usec".len() + 1..].parse().ok()?;
        } else if line.starts_with("system_usec ") {
            result.system_usec = line["system_usec".len() + 1..].parse().ok()?;
        }
    }
    Some(result)
}

#[test]
fn cpu_stat_agrees_with_reading_line_by_line() {
    let texts = [
        "",
        "\n",
        "\r\n",
        "usage_usec 1",
        "usage_usec 1\n",
        "usage_usec 1\r",
        "usage_usec 1\r\n",
        "usage_usec 1\r\r\n",
        "usage_usec 1\n\r",
        "usage_usec 1\ruser_usec 2\n",
        "usage_usec 1\n\nuser_usec 2\n\n\nsystem_usec 3",
        "usage_usec 1\r\nuser_usec 2\r\nsystem_usec 3\r\n",
        "usage_usec \nuser_usec 2",
        "usage_usec +1\nuser_usec -2",
        "usage_usec 1\nusage_usec 2\nusage_usec x",
        "usage_usec 1\nusage_usec x\nusage_usec 2",
        "user_usec 18446744073709551615\nsystem_usec 18446744073709551616",
        "usage_usec\u{a0}1\n",
        "usage_usec 1\u{2028}user_usec 2",
        "usage_usec 1\u{b}user_usec 2",
        "usage_usec 1\u{85}",
        "\u{feff}usage_usec 1",
        "nr_periods 0\nnr_throttled 0\nthrottled_usec 0\nusage_usec 7\n",
    ];
    for text in texts {
        assert_eq!(CpuStat::parse(text).ok(), line_by_line(text));
    }
}

#[test]
fn memory_current_agrees_with_the_standard_library() {
    let texts = [
        "", " ", "0", "12\n", "\t12 \r\n", "1 2", "+3\n", "-3\n", "\u{2003}4\u{3000}",
        "\u{200b}5", "\u{feff}6", "18446744073709551615\n", "18446744073709551616\n", "max\n",
        "\u{1c}7\u{1f}", "\u{85}8\u{a0}", "\u{1680}9\u{180e}",
    ];
    for text in texts {
        assert_eq!(parse_memory_current(text).ok(), text.trim().parse::<u64>().ok());
    }
}

#[test]
fn padding_is_stripped_from_the_ends_only() {
    let start = |text: &str, padding| string_of(without_start(&chars(text), padding));
    let end = |text: &str, padding| string_of(without_end(&chars(text), padding));
    assert_eq!(start("//a/b//", Padding::Separator), "a/b//");
    assert_eq!(end("//a/b//", Padding::Separator), "//a/b");
    assert_eq!(start("///", Padding::Separator), "");
    assert_eq!(end("///", Padding::Separator), "");
    assert_eq!(start("", Padding::Separator), "");
    assert_eq!(start(" /a", Padding::Separator), " /a");
    assert_eq!(start(" \t a ", Padding::Whitespace), "a ");
    assert_eq!(end(" a \n", Padding::Whitespace), " a");
    assert_eq!(start("\0\0a\0", Padding::Nul), "a\0");
    assert!(Padding::Separator.holds('/'));
    assert!(!Padding::Separator.holds('\\'));
    assert!(Padding::Nul.holds('\0'));
    assert!(!Padding::Nul.holds('0'));
    assert!(Padding::Whitespace.holds('\u{2009}'));
    assert!(!Padding::Whitespace.holds('_'));
}

#[test]
fn white_space_is_that_of_the_standard_library() {
    for code in 0..0x3100u32 {
        if let Some(c) = char::from_u32(code) {
            assert_eq!(whitespace(c), c.is_whitespace());
        }
    }
    assert!(!whitespace('\u{feff}'));
    assert!(!whitespace('\u{10ffff}'));
}

#[test]
fn string_of_characters() {
    assert_eq!(string_of(&chars("a\u{e9}\u{1F600}")), "a\u{e9}\u{1F600}");
    assert_eq!(string_of(&[]), "");
}
