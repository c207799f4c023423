use pcb_impedance::ids::{new_requirement_id, new_session_id};
use pcb_impedance::models::{BoardConfig, ImpedanceReq, StackupTemplate};
use pcb_impedance::solver::{calc_payload, fallback_result, solved_result};
use pcb_impedance::templates::{build_templates, template_query, RawLayer, RawTemplate};

fn raw(appoint: Option<&str>, name: Option<&str>, code: Option<&str>, flag: Option<i64>) -> RawTemplate {
    RawTemplate {
        appoint_name: appoint.map(|s| s.to_string()),
        construction_name: name.map(|s| s.to_string()),
        construction_code: code.map(|s| s.to_string()),
        default_flag: flag,
        plate_thickness: None,
        plate_layer_number: None,
        basic_data_list: None,
    }
}

fn req(mode: &str, layer: u32, s1: Option<u32>, d1: Option<u32>) -> ImpedanceReq {
    ImpedanceReq {
        id: "req_x".to_string(),
        target_zo: 90_000,
        mode: mode.to_string(),
        layer,
        up_ref: None,
        down_ref: Some(2),
        tolerance: 500,
        w1: 4500,
        s1,
        d1,
    }
}

fn four_layer() -> StackupTemplate {
    StackupTemplate {
        code: "T".to_string(),
        display_name: "T".to_string(),
        is_common: true,
        plate_thickness: 1600,
        plate_layer_number: 4,
        basic_data_list: Vec::new(),
    }
}

#[test]
fn query_follows_the_board() {
    let mut c = BoardConfig::default();
    assert_eq!(c.plate_type, "硬板");
    assert_eq!(c.board_layer, 4);
    assert_eq!(c.finished_thickness, 1600);
    assert_eq!(c.cuprum_thickness, "1");
    assert_eq!(c.inner_copper_thickness, "0.5");
    assert_eq!(c.unit, "mil");
    c.cuprum_thickness = "2".to_string();
    c.board_layer = 8;
    let q = template_query(&c);
    assert_eq!((q.page_num, q.page_size, q.plate_layer_number, q.plate_thickness), (1, 100, 8, 1600));
    assert_eq!(q.copper_tag, "2H");
}

#[test]
fn templates_are_filtered_named_and_recommended_first() {
    let mut with_layers = raw(Some("JLC04161H-3313"), None, Some("C3"), None);
    with_layers.plate_thickness = Some(1200);
    with_layers.plate_layer_number = Some(4);
    with_layers.basic_data_list = Some(vec![RawLayer {
        layer_name: Some("L1".to_string()),
        material: None,
        material_name: None,
        dielectric_constant: Some(4100),
        dielectric_thick: None,
        top_conductor_thick: Some(1400),
        material_type: Some(1),
    }]);
    let raws = vec![
        raw(Some("JLC0416-2116"), None, Some("C0"), None),
        with_layers,
        raw(None, Some("JLC0416 7628 通用"), Some("C4"), None),
        raw(None, None, None, None),
        raw(Some("JLC0416-2H-X"), None, Some("C5"), Some(1)),
        raw(Some("通用 1H"), None, None, Some(0)),
    ];
    let ts = build_templates(&raws, "2H");
    let names: Vec<&str> = ts.iter().map(|t| t.display_name.as_str()).collect();
    assert_eq!(names, vec!["JLC0416 7628 通用", "JLC0416-2H-X", "通用 1H", "JLC04161H-3313"]);
    assert!(ts[0].is_common && ts[1].is_common && ts[2].is_common && !ts[3].is_common);
    assert_eq!(ts[2].code, "通用 1H");
    assert_eq!(ts[0].plate_thickness, 1600);
    assert_eq!(ts[0].plate_layer_number, 4);
    let t = &ts[3];
    assert_eq!((t.code.as_str(), t.plate_thickness, t.plate_layer_number), ("C3", 1200, 4));
    assert_eq!(t.basic_data_list.len(), 1);
    assert_eq!(t.basic_data_list[0].material, "介质");
    assert_eq!(t.basic_data_list[0].dielectric_constant, Some(4100));
    let none = build_templates(&raws, "9H");
    assert_eq!(none.len(), 3);
}

#[test]
fn layer_count_is_truncated_like_an_as_cast() {
    let mut r = raw(Some("7628"), None, None, None);
    r.plate_layer_number = Some((1u64 << 32) + 6);
    let ts = build_templates(&vec![r], "1H");
    assert_eq!(ts[0].plate_layer_number, 6);
}

#[test]
fn solver_models_follow_the_mode() {
    let t = four_layer();
    let cases = [
        ("差分阻抗（外层）", 1, "W2_DiffEdgeCoupledCoatedMicrostrip1B"),
        ("差分阻抗（内层）", 2, "W2_DiffOffsetStripline1B1A"),
        ("共面差分阻抗（外层）", 1, "W2_DiffCoatedCoplanarWaveguideWithLowerGnd1B"),
        ("共面单端（外层）", 1, "W2_CoatedCoplanarWaveguideWithLowerGnd1B"),
        ("共面单端（不带防焊）", 1, "W2_SurfaceCoplanarWaveguideWithLowerGnd1B"),
        ("单端阻抗（内层）", 3, "W2_OffsetStripline1B1A"),
        ("单端阻抗（外层）", 4, "W2_CoatedMicrostrip1B"),
        ("单端阻抗（不带防焊）", 1, "W2_SurfaceMicrostrip1B"),
    ];
    for (mode, layer, mark) in cases {
        let p = calc_payload(&t, &req(mode, layer, None, None), "gpui-session");
        assert_eq!(p.calc_mark, mark, "mode {}", mode);
        assert_eq!(p.uuid, "gpui-session");
        assert_eq!(p.param_md5, "d41d8cd98f00b204e9800998ecf8427e");
        assert!(p.access_id.starts_with("gpui-") && p.access_id.len() == 41);
    }
}

#[test]
fn solver_arguments_follow_the_mode() {
    let t = four_layer();
    let p = calc_payload(&t, &req("差分阻抗（外层）", 1, None, None), "u");
    let a = &p.args;
    assert_eq!((a.h1, a.er1, a.w1, a.w2, a.t1), (8126, 4300, 5200, 4500, 1600));
    assert_eq!((a.c1, a.c2, a.cer, a.zo, a.zo_tol), (1200, 600, 3800, 90_000, 500));
    assert_eq!((a.calculate_mode, a.link_computing_mode, a.w2_link_w1_incr, a.min_w2, a.max_w2), (3, false, 500, 2, 150));
    assert_eq!((a.s1, a.c3, a.hz0, a.d1), (Some(5500), Some(1200), Some(108), None));
    let p = calc_payload(&t, &req("共面单端（不带防焊）", 2, Some(1), Some(6000)), "u");
    let a = &p.args;
    assert_eq!((a.w1, a.w2, a.t1, a.c1, a.c2, a.cer), (8000, 7500, 600, 0, 0, 1000));
    assert_eq!((a.s1, a.c3, a.hz0, a.d1), (None, None, None, Some(6000)));
    let p = calc_payload(&t, &req("共面差分阻抗（外层）", 4, Some(7000), None), "u");
    assert_eq!((p.args.s1, p.args.d1, p.args.t1), (Some(7000), Some(8000), 1600));
}

#[test]
fn results_carry_the_requirement_and_the_answer() {
    let r = req("差分阻抗（外层）", 1, Some(5500), None);
    let s = solved_result(&r, Some(8980), Some(8480), Some(89_680), Some(5_738_000), Some(2960), 77);
    assert_eq!((s.req_id.as_str(), s.target_zo, s.layer, s.s1), ("req_x", 90_000, 1, Some(5500)));
    assert_eq!((s.w1, s.w2, s.actual_zo, s.delay, s.er_eff), (Some(8980), Some(8480), Some(89_680), Some(5_738_000), Some(2960)));
    assert!(!s.from_cache && !s.is_loading);
    assert_eq!(s.calc_time_ms, 77);
    let f = fallback_result(&r, 13_570, 9);
    assert_eq!((f.w1, f.w2, f.actual_zo), (Some(13_570), Some(13_070), Some(90_000)));
    assert_eq!((f.delay, f.er_eff, f.calc_time_ms), (Some(5_800_000), Some(3200), 9));
}

#[test]
fn ids_are_prefixed_random_uuids() {
    let a = new_requirement_id();
    let b = new_requirement_id();
    assert_ne!(a, b);
    for (id, prefix) in [(a.as_str(), "req_"), (b.as_str(), "req_")] {
        assert!(id.starts_with(prefix));
        let u = &id[prefix.len()..];
        assert_eq!(u.len(), 36);
        for (i, c) in u.chars().enumerate() {
            if [8, 13, 18, 23].contains(&i) {
                assert_eq!(c, '-');
            } else {
                assert!(c.is_ascii_hexdigit() && !c.is_ascii_uppercase());
            }
        }
        assert_eq!(&u[14..15], "4");
        assert!("89ab".contains(&u[19..20]));
    }
    let s = new_session_id();
    assert!(s.starts_with("gpui-") && s.len() == 41);
}
