use s3tunnel::validator::{is_u16, is_val, parse_u16};

const SAMPLES: [&str; 34] = [
    "", "0", "1", "22", "8080", "65535", "65536", "65540", "70000", "99999", "100000",
    "00000000000000000000000000000000000022", "+", "+0", "+22", "++22", "+-22", "-", "-0", "-22", "22+",
    " 22", "22 ", "2 2", "2_2", "0x16", "1e3", "22.0", "abc", "\u{0662}\u{0662}", "\u{ff12}", "１２", "+65535",
    "+65536",
];

#[test]
fn parse_u16_agrees_with_std() {
    for sample in SAMPLES {
        assert_eq!(parse_u16(sample), sample.parse::<u16>().ok(), "{:?}", sample);
    }
}

#[test]
fn parse_u16_agrees_with_std_on_every_port() {
    for port in 0..=u16::MAX {
        let text = port.to_string();
        assert_eq!(parse_u16(&text), Some(port));
    }
    for above in 65536u32..66000 {
        assert_eq!(parse_u16(&above.to_string()), None);
    }
}

#[test]
fn parse_u16_values() {
    assert_eq!(parse_u16("22"), Some(22));
    assert_eq!(parse_u16("+8080"), Some(8080));
    assert_eq!(parse_u16("000"), Some(0));
    assert_eq!(parse_u16("65535"), Some(65535));
    assert_eq!(parse_u16("65536"), None);
    assert_eq!(parse_u16(""), None);
    assert_eq!(parse_u16("+"), None);
    assert_eq!(parse_u16("4294967318"), None);
}

#[test]
fn is_val_accepts_ports_and_names_what_it_refuses() {
    assert_eq!(is_val("22".to_string()), Ok(()));
    assert_eq!(is_val("+443".to_string()), Ok(()));
    assert_eq!(is_val("65536".to_string()), Err("Cannot parse 65536".to_string()));
    assert_eq!(is_val("ssh".to_string()), Err("Cannot parse ssh".to_string()));
    assert_eq!(is_val("".to_string()), Err("Cannot parse ".to_string()));
    for sample in SAMPLES {
        assert_eq!(is_val(sample.to_string()).is_ok(), sample.parse::<u16>().is_ok());
    }
}

#[test]
fn is_u16_names_the_type() {
    assert_eq!(is_u16("1234".to_string()), Ok(()));
    assert_eq!(is_u16("-1".to_string()), Err("Cannot parse -1 to u16".to_string()));
    assert_eq!(is_u16("123456".to_string()), Err("Cannot parse 123456 to u16".to_string()));
}
