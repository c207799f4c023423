use pcb_impedance::cache::ImpedanceCache;
use pcb_impedance::models::{ImpedanceReq, ImpedanceResult};
use pcb_impedance::solver::solved_result;

fn req(id: &str) -> ImpedanceReq {
    ImpedanceReq {
        id: id.to_string(),
        target_zo: 50_000,
        mode: "单端阻抗（外层）".to_string(),
        layer: 1,
        up_ref: None,
        down_ref: Some(2),
        tolerance: 500,
        w1: 8000,
        s1: None,
        d1: None,
    }
}

fn result_for(id: &str, w1: u32) -> ImpedanceResult {
    solved_result(&req(id), Some(w1), Some(w1 - 500), Some(50_100), Some(6_000_000), Some(3300), 42)
}

#[test]
fn new_cache_is_empty() {
    let mut c = ImpedanceCache::new();
    let (h, m, rate) = c.stats();
    assert_eq!((h, m), (0, 0));
    assert_eq!(rate, "0.0%");
    assert!(c.get("anything").is_none());
    assert_eq!(c.stats().1, 1);
}

#[test]
fn get_after_set_returns_the_result_marked_cached() {
    let mut c = ImpedanceCache::new();
    let r = result_for("req_1", 12_000);
    assert!(!r.from_cache);
    c.set("k1".to_string(), r);
    let got = c.get("k1").expect("stored");
    assert!(got.from_cache);
    assert_eq!(got.w1, Some(12_000));
    assert_eq!(got.calc_time_ms, 42);
    assert_eq!(got.req_id, "req_1");
    let (h, m, rate) = c.stats();
    assert_eq!((h, m), (1, 0));
    assert_eq!(rate, "100.0%");
}

#[test]
fn set_replaces_and_keeps_other_keys() {
    let mut c = ImpedanceCache::new();
    c.set("a".to_string(), result_for("req_a", 10_000));
    c.set("b".to_string(), result_for("req_b", 11_000));
    c.set("a".to_string(), result_for("req_a", 13_000));
    assert_eq!(c.get("a").unwrap().w1, Some(13_000));
    assert_eq!(c.get("b").unwrap().w1, Some(11_000));
    assert!(c.get("c").is_none());
    let (h, m, rate) = c.stats();
    assert_eq!((h, m), (2, 1));
    assert_eq!(rate, "66.7%");
}

#[test]
fn hit_rate_matches_the_float_formula() {
    for h in 0usize..40 {
        for m in 0usize..40 {
            let mut c = ImpedanceCache::new();
            c.set("k".to_string(), result_for("r", 9000));
            for _ in 0..h {
                c.get("k");
            }
            for _ in 0..m {
                c.get("missing");
            }
            let (hits, misses, rate) = c.stats();
            assert_eq!((hits, misses), (h, m));
            let total = h + m;
            let expected = if total > 0 {
                format!("{:.1}%", (h as f64 / total as f64) * 100.0)
            } else {
                "0.0%".to_string()
            };
            assert_eq!(rate, expected, "hits {} misses {}", h, m);
        }
    }
}

#[test]
fn different_requests_get_different_keys() {
    let base = req("req_a_b");
    let k = ImpedanceCache::generate_key("X", &base);
    assert_eq!(k, ImpedanceCache::generate_key("X", &req("req_a_b")));
    let mut other = req("req_a_b");
    other.layer = 2;
    assert_ne!(k, ImpedanceCache::generate_key("X", &other));
    let mut other = req("req_a_b");
    other.up_ref = Some(2);
    assert_ne!(k, ImpedanceCache::generate_key("X", &other));
    let mut other = req("req_a_b");
    other.target_zo = 50_001;
    assert_ne!(k, ImpedanceCache::generate_key("X", &other));
    assert_ne!(k, ImpedanceCache::generate_key("Y", &base));
    assert_ne!(k, ImpedanceCache::generate_key("X", &req("req_a")));
}
