use pcb_impedance::number::read_in_range;

fn float_reading(text: &str) -> Option<(u32, u8)> {
    let x: f64 = text.parse().ok()?;
    if !(x >= 10.0 && x <= 200.0) {
        return None;
    }
    let m = x * 1000.0;
    let f = m.floor();
    let rest = m - f;
    let code = if rest == 0.0 {
        0
    } else if rest < 0.5 {
        1
    } else if rest == 0.5 {
        2
    } else {
        3
    };
    Some((f as u32, code))
}

#[test]
fn reads_numbers_as_floats_do() {
    let texts = [
        "10", "200", "50", "50.", ".5e2", "+12.25e1", "1e2", "1E2", "1e+2", "1000e-1", "0.1e3", "007",
        "12.0625", "00012e1", "5e1", "2e2", "0.00015e6",
    ];
    for text in texts {
        assert_eq!(read_in_range(text), float_reading(text), "text {}", text);
    }
}

#[test]
fn refuses_what_is_not_a_number_in_range() {
    let texts = [
        "", ".", "+", "-", "e", "1e", "1e+", "e5", "1.2.3", "12a", " 50", "50 ", "-50", "inf", "-inf",
        "infinity", "nan", "NaN", "9.999", "200.001", "1e3", "1e-999999999999999999999999999999999",
        "1e999999999999999999999999999999999", "0", "0000", "0.0e5", "1_0",
    ];
    for text in texts {
        assert_eq!(read_in_range(text), None, "text {}", text);
        if let Ok(x) = text.parse::<f64>() {
            assert!(!(x >= 10.0 && x <= 200.0), "text {}", text);
        }
    }
}

#[test]
fn rounding_codes_follow_the_rest() {
    assert_eq!(read_in_range("50.0005"), Some((50_000, 2)));
    assert_eq!(read_in_range("50.00051"), Some((50_000, 3)));
    assert_eq!(read_in_range("50.0004999"), Some((50_000, 1)));
    assert_eq!(read_in_range("50.0000"), Some((50_000, 0)));
    assert_eq!(read_in_range("200.0000"), Some((200_000, 0)));
    assert_eq!(read_in_range("199.9999"), Some((199_999, 3)));
}
