use pcb_impedance::cache::ImpedanceCache;
use pcb_impedance::models::ImpedanceReq;
use pcb_impedance::text::{
    chars_of, contains_str, push_debug_milli, push_debug_opt_count,
    push_debug_opt_milli, push_dec, push_display_milli, push_fixed3, push_whole_milli, str_eq,
};

fn milli_to_f64(m: u64) -> f64 {
    m as f64 / 1000.0
}

fn sample_millis() -> Vec<u64> {
    let mut v = vec![0, 1, 5, 9, 10, 99, 100, 500, 999, 1000, 1001, 1500, 2500, 3500, 5500, 8126];
    v.extend_from_slice(&[10_000, 49_995, 50_000, 50_150, 50_500, 51_500, 89_680, 90_000, 199_990, 200_000]);
    v.extend_from_slice(&[123_456, 5_800_000, 41_340, 7870, 1_234_567_891]);
    v
}

#[test]
fn decimal_digits_match_std() {
    for n in [0u64, 7, 10, 42, 100, 999, 1000, 65_535, 4_294_967_295, u64::MAX] {
        let mut s = String::new();
        push_dec(&mut s, n);
        assert_eq!(s, n.to_string());
    }
}

#[test]
fn three_decimals_match_std() {
    for m in sample_millis() {
        let mut s = String::new();
        push_fixed3(&mut s, m);
        assert_eq!(s, format!("{:.3}", milli_to_f64(m)), "value {}", m);
    }
}

#[test]
fn shortest_form_matches_std_display() {
    for m in sample_millis() {
        let mut s = String::new();
        push_display_milli(&mut s, m);
        assert_eq!(s, format!("{}", milli_to_f64(m)), "value {}", m);
    }
}

#[test]
fn debug_form_matches_std_debug() {
    for m in sample_millis() {
        let mut s = String::new();
        push_debug_milli(&mut s, m);
        assert_eq!(s, format!("{:?}", milli_to_f64(m)), "value {}", m);
    }
}

#[test]
fn optional_forms_match_std_debug() {
    for o in [None, Some(0u32), Some(2), Some(16)] {
        let mut s = String::new();
        push_debug_opt_count(&mut s, o);
        assert_eq!(s, format!("{:?}", o));
    }
    for o in [None, Some(5500u32), Some(6000), Some(8000), Some(125)] {
        let mut s = String::new();
        push_debug_opt_milli(&mut s, o);
        assert_eq!(s, format!("{:?}", o.map(|v| milli_to_f64(v as u64))));
    }
}

#[test]
fn whole_rounding_matches_std() {
    for m in sample_millis() {
        let mut s = String::new();
        push_whole_milli(&mut s, m);
        assert_eq!(s, format!("{:.0}", milli_to_f64(m)), "value {}", m);
    }
}

#[test]
fn substring_and_equality() {
    assert!(contains_str("差分阻抗（外层）", "差分"));
    assert!(!contains_str("单端阻抗（外层）", "差分"));
    assert!(contains_str("abc", ""));
    assert!(!contains_str("ab", "abc"));
    assert!(contains_str("JLC04161H-7628A", "1H"));
    assert!(str_eq("RECOMMENDED_ONLY", "RECOMMENDED_ONLY"));
    assert!(!str_eq("ALL", "RECOMMENDED_ONLY"));
    assert_eq!(chars_of("L1口"), vec!['L', '1', '口']);
}

fn req(id: &str, zo: u32, mode: &str, layer: u32, up: Option<u32>, down: Option<u32>, tol: u32, w1: u32, s1: Option<u32>, d1: Option<u32>) -> ImpedanceReq {
    ImpedanceReq {
        id: id.to_string(),
        target_zo: zo,
        mode: mode.to_string(),
        layer,
        up_ref: up,
        down_ref: down,
        tolerance: tol,
        w1,
        s1,
        d1,
    }
}

#[test]
fn cache_key_matches_the_float_format() {
    let cases = vec![
        ("JLC041611-7628B", req("req_1", 50_000, "单端阻抗（外层）", 1, None, Some(2), 500, 8000, None, None)),
        ("JLC04161H-7628A", req("req_2", 90_000, "差分阻抗（外层）", 1, None, Some(2), 500, 4500, Some(5500), None)),
        ("T", req("r", 85_500, "共面差分阻抗（外层）", 3, Some(2), Some(4), 1000, 4000, Some(6000), Some(8000))),
    ];
    for (code, r) in cases {
        let key = ImpedanceCache::generate_key(code, &r);
        let expected = format!(
            "{}_{}_{:.3}_{}_{}_{}_{:?}_{:?}_{:.3}_{:?}_{:?}",
            code,
            r.id,
            milli_to_f64(r.target_zo as u64),
            r.mode,
            r.layer,
            milli_to_f64(r.tolerance as u64),
            r.up_ref,
            r.down_ref,
            milli_to_f64(r.w1 as u64),
            r.s1.map(|v| milli_to_f64(v as u64)),
            r.d1.map(|v| milli_to_f64(v as u64)),
        );
        assert_eq!(key, expected);
    }
    let key = ImpedanceCache::generate_key(
        "JLC041611-7628B",
        &req("req_1", 50_000, "单端阻抗（外层）", 1, None, Some(2), 500, 8000, None, None),
    );
    assert_eq!(key, "JLC041611-7628B_req_1_50.000_单端阻抗（外层）_1_0.5_None_Some(2)_8.000_None_None");
}
