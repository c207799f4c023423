use pcb_impedance::desk::{default_templates, row_is_loading, ImpedanceDesktopApp};
use pcb_impedance::models::{BasicData, ImpedanceResult, StackupTemplate};
use pcb_impedance::solver::solved_result;

fn template(code: &str, common: bool) -> StackupTemplate {
    StackupTemplate {
        code: code.to_string(),
        display_name: code.to_string(),
        is_common: common,
        plate_thickness: 1600,
        plate_layer_number: 4,
        basic_data_list: Vec::<BasicData>::new(),
    }
}

fn codes(app: &ImpedanceDesktopApp) -> Vec<String> {
    app.results.iter().map(|(c, _)| c.clone()).collect()
}

#[test]
fn start_up_shows_the_prepared_results() {
    let (app, q) = ImpedanceDesktopApp::new();
    assert!(app.uuid.starts_with("gpui-"));
    assert_eq!(app.uuid.len(), 41);
    assert_eq!(app.status_text, "正在同步官方标准层压结构...");
    assert!(app.is_calculating);
    assert_eq!(codes(&app), vec!["JLC041611-7628B", "JLC04161H-7628A"]);
    for (_, row) in &app.results {
        assert_eq!(row.len(), 2);
        assert!(row.iter().all(|r| r.from_cache && !r.is_loading));
        assert_eq!(row[0].w1, Some(13_570));
        assert_eq!(row[0].actual_zo, Some(50_150));
        assert_eq!(row[1].w1, Some(8980));
        assert_eq!(row[1].s1, Some(5500));
    }
    assert_eq!(app.cache.stats().0, 4);
    assert_eq!(q.page_num, 1);
    assert_eq!(q.page_size, 100);
    assert_eq!(q.plate_layer_number, 4);
    assert_eq!(q.plate_thickness, 1600);
    assert_eq!(q.copper_tag, "1H");
}

#[test]
fn default_templates_are_the_two_recommended_stackups() {
    let ts = default_templates();
    assert_eq!(ts.len(), 2);
    assert_eq!(ts[0].code, "JLC041611-7628B");
    assert_eq!(ts[0].basic_data_list.len(), 7);
    assert_eq!(ts[0].basic_data_list[1].material, "半固化片");
    assert_eq!(ts[0].basic_data_list[3].dielectric_thick, Some(41_340));
    assert_eq!(ts[0].basic_data_list[6].top_conductor_thick, Some(1400));
    assert_eq!(ts[1].code, "JLC04161H-7628A");
    assert!(ts[1].basic_data_list.is_empty());
    assert!(ts.iter().all(|t| t.is_common && t.plate_layer_number == 4 && t.plate_thickness == 1600));
}

#[test]
fn recommended_strategy_shows_two_common_templates_with_pending_rows() {
    let (mut app, _) = ImpedanceDesktopApp::new();
    app.templates_loaded(vec![
        template("A", false),
        template("B", true),
        template("C", true),
        template("D", true),
    ]);
    assert_eq!(codes(&app), vec!["B", "C"]);
    assert_eq!(app.status_text, "视口动态加载与计算已就绪");
    assert!(!app.is_calculating);
    for (_, row) in &app.results {
        assert!(row.iter().all(|r| r.is_loading && r.w1.is_none() && !r.from_cache));
        assert_eq!(row[0].req_id, "req_1");
        assert_eq!(row[1].req_id, "req_2");
    }
    app.set_calc_strategy("ALL");
    assert_eq!(codes(&app), vec!["A", "B", "C", "D"]);
}

#[test]
fn empty_list_keeps_rows_and_reports_sync() {
    let (mut app, _) = ImpedanceDesktopApp::new();
    let before = codes(&app);
    app.templates_loaded(Vec::new());
    assert_eq!(app.status_text, "已同步 0 种官方标准层压模板");
    assert!(app.is_calculating);
    assert_eq!(codes(&app), before);
    app.templates_failed("timeout");
    assert_eq!(app.status_text, "同步官方模板失败: timeout");
    assert!(!app.is_calculating);
}

#[test]
fn pinning_moves_the_row_first_and_pinning_again_unpins() {
    let (mut app, _) = ImpedanceDesktopApp::new();
    app.set_calc_strategy("ALL");
    app.templates_loaded(vec![template("A", true), template("B", false), template("C", true)]);
    assert_eq!(codes(&app), vec!["A", "B", "C"]);
    app.pin_template("C");
    assert_eq!(app.pinned_template.as_deref(), Some("C"));
    assert_eq!(codes(&app), vec!["C", "A", "B"]);
    app.trigger_calc();
    assert_eq!(codes(&app), vec!["C", "A", "B"]);
    app.pin_template("C");
    assert_eq!(app.pinned_template, None);
    assert_eq!(codes(&app), vec!["C", "A", "B"]);
    app.trigger_calc();
    assert_eq!(codes(&app), vec!["A", "B", "C"]);
    app.pin_template("Z");
    assert_eq!(app.pinned_template.as_deref(), Some("Z"));
    assert_eq!(codes(&app), vec!["A", "B", "C"]);
}

#[test]
fn expanding_twice_closes_again() {
    let (mut app, _) = ImpedanceDesktopApp::new();
    app.toggle_expand("A");
    assert_eq!(app.expanded_templates, vec!["A".to_string()]);
    app.toggle_expand("B");
    app.toggle_expand("A");
    assert_eq!(app.expanded_templates, vec!["B".to_string()]);
    app.toggle_expand("B");
    assert!(app.expanded_templates.is_empty());
}

#[test]
fn dropdown_toggles_and_closes() {
    let (mut app, _) = ImpedanceDesktopApp::new();
    app.toggle_dropdown("unit");
    assert_eq!(app.active_dropdown.as_deref(), Some("unit"));
    app.toggle_dropdown("board_layer");
    assert_eq!(app.active_dropdown.as_deref(), Some("board_layer"));
    app.toggle_dropdown("board_layer");
    assert_eq!(app.active_dropdown, None);
    app.toggle_dropdown("unit");
    app.close_dropdown();
    assert_eq!(app.active_dropdown, None);
}

#[test]
fn presets_add_requirements_with_fresh_ids() {
    let (mut app, _) = ImpedanceDesktopApp::new();
    app.add_preset("50_l1");
    app.add_preset("90_l1");
    app.add_preset("100_l1");
    app.add_preset("50_l4");
    app.add_preset("unknown");
    app.add_custom_requirement();
    let r = &app.requirements;
    assert_eq!(r.len(), 7);
    assert_eq!((r[2].target_zo, r[2].layer, r[2].down_ref, r[2].s1), (50_000, 1, Some(2), None));
    assert_eq!((r[3].target_zo, r[3].w1, r[3].s1), (90_000, 4500, Some(5500)));
    assert_eq!(r[3].mode, "差分阻抗（外层）");
    assert_eq!((r[4].target_zo, r[4].w1, r[4].s1), (100_000, 4000, Some(6000)));
    assert_eq!((r[5].layer, r[5].up_ref, r[5].down_ref), (4, Some(3), None));
    assert_eq!(r[6].mode, "单端阻抗（外层）");
    for q in &r[2..] {
        assert!(q.id.starts_with("req_"));
        assert_eq!(q.id.len(), 40);
        assert_eq!(&q.id[18..19], "4");
        assert_eq!(q.tolerance, 500);
    }
    assert_ne!(r[2].id, r[3].id);
    for (_, row) in &app.results {
        assert_eq!(row.len(), 7);
    }
}

#[test]
fn copy_inserts_after_the_original_and_delete_keeps_one() {
    let (mut app, _) = ImpedanceDesktopApp::new();
    app.copy_requirement(0);
    assert_eq!(app.requirements.len(), 3);
    assert_eq!(app.requirements[1].target_zo, 50_000);
    assert_ne!(app.requirements[1].id, app.requirements[0].id);
    assert_eq!(app.requirements[2].id, "req_2");
    app.copy_requirement(9);
    assert_eq!(app.requirements.len(), 3);
    app.delete_req(0);
    app.delete_req(0);
    assert_eq!(app.requirements.len(), 1);
    assert_eq!(app.requirements[0].id, "req_2");
    app.delete_req(0);
    assert_eq!(app.requirements.len(), 1);
}

#[test]
fn adjusting_the_target_stays_between_10_and_200_ohm() {
    let (mut app, _) = ImpedanceDesktopApp::new();
    app.adjust_target_zo(0, -5000);
    assert_eq!(app.requirements[0].target_zo, 45_000);
    for _ in 0..20 {
        app.adjust_target_zo(0, -5000);
    }
    assert_eq!(app.requirements[0].target_zo, 10_000);
    for _ in 0..50 {
        app.adjust_target_zo(0, 5000);
    }
    assert_eq!(app.requirements[0].target_zo, 200_000);
    app.adjust_target_zo(7, 5000);
    assert_eq!(app.requirements.len(), 2);
}

#[test]
fn changing_the_layer_moves_the_reference_planes() {
    let (mut app, _) = ImpedanceDesktopApp::new();
    app.toggle_dropdown("req_0_layer");
    app.set_req_layer(0, 3);
    assert_eq!(app.active_dropdown, None);
    assert_eq!((app.requirements[0].up_ref, app.requirements[0].down_ref), (Some(2), Some(4)));
    app.set_req_layer(0, 4);
    assert_eq!((app.requirements[0].up_ref, app.requirements[0].down_ref), (Some(3), None));
    app.set_req_layer(0, 1);
    assert_eq!((app.requirements[0].up_ref, app.requirements[0].down_ref), (None, Some(2)));
    app.set_req_up_ref(0, Some(7));
    app.set_req_down_ref(0, None);
    app.set_req_mode(0, "共面单端（外层）");
    assert_eq!(app.requirements[0].up_ref, Some(7));
    assert_eq!(app.requirements[0].down_ref, None);
    assert_eq!(app.requirements[0].mode, "共面单端（外层）");
    app.set_req_layer(0, 1);
    assert_eq!(app.requirements[0].up_ref, Some(7));
}

#[test]
fn board_settings_refetch_only_on_change() {
    let (mut app, _) = ImpedanceDesktopApp::new();
    assert!(app.set_layers(4).is_none());
    let q = app.set_layers(6).expect("refetch");
    assert_eq!(q.plate_layer_number, 6);
    assert_eq!(app.config.board_layer, 6);
    assert!(app.is_calculating);
    assert!(app.set_thickness(1600).is_none());
    // within 0.001 mm: neither taken nor refetched
    assert!(app.set_thickness(1601).is_none());
    assert_eq!(app.config.finished_thickness, 1600);
    assert!(app.set_thickness(1599).is_none());
    assert_eq!(app.set_thickness(1602).unwrap().plate_thickness, 1602);
    assert_eq!(app.set_thickness(2000).unwrap().plate_thickness, 2000);
    assert_eq!(app.set_outer_copper("2").unwrap().copper_tag, "2H");
    assert!(app.set_outer_copper("2").is_none());
    assert!(app.set_inner_copper("1").is_some());
    assert_eq!(app.config.inner_copper_thickness, "1");
    assert!(app.set_plate_type("HDI").is_some());
    assert!(app.set_plate_type("HDI").is_none());
    app.set_unit("mm");
    assert_eq!(app.config.unit, "mm");
    assert_eq!(app.status_text, "视口动态加载与计算已就绪");
}

#[test]
fn typing_a_target_and_committing() {
    let (mut app, _) = ImpedanceDesktopApp::new();
    app.begin_editing_zo(0);
    assert_eq!(app.editing_zo, Some((0, "50".to_string())));
    app.edit_zo_key(0, "backspace");
    app.edit_zo_key(0, "backspace");
    app.edit_zo_key(0, "7");
    app.edit_zo_key(0, "5");
    app.edit_zo_key(0, ".");
    app.edit_zo_key(0, "5");
    app.edit_zo_key(0, ".");
    app.edit_zo_key(0, "9");
    assert_eq!(app.editing_zo, Some((0, "75.5".to_string())));
    app.edit_zo_key(1, "enter");
    assert!(app.editing_zo.is_some());
    app.edit_zo_key(0, "enter");
    assert_eq!(app.editing_zo, None);
    assert_eq!(app.requirements[0].target_zo, 75_500);
    assert!(app.results[0].1[0].is_loading);
}

#[test]
fn out_of_range_or_unreadable_edits_change_nothing() {
    let (mut app, _) = ImpedanceDesktopApp::new();
    app.editing_zo = Some((0, "300".to_string()));
    app.commit_editing_zo();
    assert_eq!(app.editing_zo, None);
    assert_eq!(app.requirements[0].target_zo, 50_000);
    app.editing_zo = Some((0, "abc".to_string()));
    app.close_dropdown();
    assert_eq!(app.requirements[0].target_zo, 50_000);
    app.begin_editing_zo(1);
    app.edit_zo_key(1, "escape");
    assert_eq!(app.editing_zo, None);
    app.editing_zo = Some((0, "50.005".to_string()));
    app.commit_editing_zo();
    assert_eq!(app.requirements[0].target_zo, 50_000);
}

#[test]
fn editor_rounds_half_to_even() {
    let (mut app, _) = ImpedanceDesktopApp::new();
    app.requirements[0].target_zo = 50_500;
    app.begin_editing_zo(0);
    assert_eq!(app.editing_zo, Some((0, "50".to_string())));
    app.requirements[0].target_zo = 51_500;
    app.begin_editing_zo(0);
    assert_eq!(app.editing_zo, Some((0, "52".to_string())));
    app.edit_zo_key(0, "enter");
    assert_eq!(app.requirements[0].target_zo, 52_000);
}

#[test]
fn on_demand_job_is_handed_out_once_and_its_results_are_cached() {
    let (mut app, _) = ImpedanceDesktopApp::new();
    app.templates_loaded(vec![template("X", true)]);
    let job = app.calc_template_on_demand("X").expect("job");
    assert!(app.calc_template_on_demand("X").is_none());
    assert!(app.calc_template_on_demand("nope").is_none());
    assert_eq!(app.computing_templates, vec!["X".to_string()]);
    assert_eq!(job.code, "X");
    assert_eq!(job.requests.len(), 2);
    assert!(job.cached.iter().all(|c| c.is_none()));
    assert!(job.keys[0].starts_with("X_req_1_50.000_"));
    let solved: Vec<Option<ImpedanceResult>> = job
        .requests
        .iter()
        .map(|r| Some(solved_result(r, Some(9000), Some(8500), Some(r.target_zo), None, None, 120)))
        .collect();
    app.finish_template_calc(job, solved);
    assert!(app.computing_templates.is_empty());
    let row = &app.results[0].1;
    assert_eq!(row.len(), 2);
    assert!(row.iter().all(|r| !r.is_loading && !r.from_cache && r.calc_time_ms == 120));
    let hits = app.cache.stats().0;
    assert_eq!(app.status_text, format!("计算完成 · 本地缓存命中 {} 次 ({})", hits, app.cache.stats().2));
    app.trigger_calc();
    let row = &app.results[0].1;
    assert!(row.iter().all(|r| r.from_cache && r.w1 == Some(9000)));
    let job2 = app.calc_template_on_demand("X").expect("job again");
    assert!(job2.cached.iter().all(|c| c.is_some()));
    app.finish_template_calc(job2, vec![None, None]);
    assert!(app.results[0].1.iter().all(|r| r.from_cache));
}

#[test]
fn unsolved_requirements_are_left_out_of_a_finished_row() {
    let (mut app, _) = ImpedanceDesktopApp::new();
    app.templates_loaded(vec![template("X", true)]);
    let job = app.calc_template_on_demand("X").unwrap();
    let first = solved_result(&job.requests[0], Some(1), Some(2), None, None, None, 5);
    app.finish_template_calc(job, vec![Some(first), None]);
    assert_eq!(app.results[0].1.len(), 1);
    assert_eq!(app.results[0].1[0].req_id, "req_1");
}

#[test]
fn clearing_the_cache_resets_counters() {
    let (mut app, _) = ImpedanceDesktopApp::new();
    app.clear_cache();
    assert_eq!(app.status_text, "本地阻抗缓存已清空");
    let (h, m, rate) = app.cache.stats();
    assert_eq!((h, m, rate.as_str()), (0, 0, "0.0%"));
    app.trigger_calc();
    assert!(app.results.iter().all(|(_, row)| row.iter().all(|r| r.is_loading)));
}

#[test]
fn a_job_out_while_the_cache_is_cleared_stores_nothing() {
    let (mut app, _) = ImpedanceDesktopApp::new();
    app.templates_loaded(vec![template("X", true)]);
    let job = app.calc_template_on_demand("X").expect("job");
    assert_eq!(job.epoch, 0);
    app.clear_cache();
    assert_eq!(app.cache_epoch, 1);
    let solved: Vec<Option<ImpedanceResult>> = job
        .requests
        .iter()
        .map(|r| Some(solved_result(r, Some(9000), Some(8500), Some(r.target_zo), None, None, 7)))
        .collect();
    app.finish_template_calc(job, solved);
    // the row shows the job's results, the new cache holds none of them
    assert_eq!(app.results[0].1.len(), 2);
    assert!(app.results[0].1.iter().all(|r| r.w1 == Some(9000)));
    app.trigger_calc();
    assert!(app.results[0].1.iter().all(|r| r.is_loading));
    // a job handed out after the clear stores as usual
    let job = app.calc_template_on_demand("X").expect("job");
    assert_eq!(job.epoch, 1);
    let solved: Vec<Option<ImpedanceResult>> = job
        .requests
        .iter()
        .map(|r| Some(solved_result(r, Some(9100), Some(8600), Some(r.target_zo), None, None, 7)))
        .collect();
    app.finish_template_calc(job, solved);
    app.trigger_calc();
    assert!(app.results[0].1.iter().all(|r| r.from_cache && r.w1 == Some(9100)));
}

#[test]
fn rows_with_a_pending_result_are_loading() {
    let (mut app, _) = ImpedanceDesktopApp::new();
    assert!(app.results.iter().all(|(_, row)| !row_is_loading(row)));
    app.templates_loaded(vec![template("X", true)]);
    assert!(row_is_loading(&app.results[0].1));
    assert!(!row_is_loading(&Vec::new()));
}

#[test]
fn pinning_twice_restores_the_pin_and_the_rows() {
    let (mut app, _) = ImpedanceDesktopApp::new();
    let before = codes(&app);
    let last = before[before.len() - 1].clone();
    app.pin_template(&last);
    app.pin_template(&last);
    assert_eq!(app.pinned_template, None);
    let mut after = codes(&app);
    let mut sorted = before.clone();
    after.sort();
    sorted.sort();
    assert_eq!(after, sorted);
}

#[test]
fn the_editor_text_stays_short_with_one_dot() {
    let (mut app, _) = ImpedanceDesktopApp::new();
    app.begin_editing_zo(0);
    for key in ["1", "2", "3", "4", ".", ".", "5", "6"] {
        app.edit_zo_key(0, key);
        let t = &app.editing_zo.as_ref().unwrap().1;
        assert!(t.len() <= 5);
        assert!(t.matches('.').count() <= 1);
    }
    for _ in 0..5 {
        app.edit_zo_key(0, "backspace");
    }
    for key in [".", "1", "2", "3", "4", "."] {
        app.edit_zo_key(0, key);
    }
    assert_eq!(app.editing_zo.as_ref().unwrap().1, ".123");
}

#[test]
fn typed_texts_are_read_as_floats_are() {
    let cases: [(&str, u32); 9] = [
        ("1e2", 100_000),
        ("1E2", 100_000),
        ("+5.5e1", 55_000),
        ("60.0001", 60_000),
        ("60.0005", 60_000),
        ("60.0015", 60_002),
        ("6000e-2", 60_000),
        ("0.0000075e7", 75_000),
        ("200", 200_000),
    ];
    for (text, expected) in cases {
        let (mut app, _) = ImpedanceDesktopApp::new();
        app.editing_zo = Some((0, text.to_string()));
        app.commit_editing_zo();
        assert!(app.editing_zo.is_none());
        assert_eq!(app.requirements[0].target_zo, expected, "text {}", text);
    }
    for text in ["-50", "inf", "nan", "1e", "e2", ".", "200.0001", "9.9999", "1e400", "50.005"] {
        let (mut app, _) = ImpedanceDesktopApp::new();
        app.editing_zo = Some((0, text.to_string()));
        app.commit_editing_zo();
        assert!(app.editing_zo.is_none());
        assert_eq!(app.requirements[0].target_zo, 50_000, "text {}", text);
    }
    // 50.011 differs by more than 0.01 ohm, 50.0101 too, 50.01 does not
    for (text, expected) in [("50.011", 50_011), ("50.0101", 50_010), ("50.01", 50_000)] {
        let (mut app, _) = ImpedanceDesktopApp::new();
        app.editing_zo = Some((0, text.to_string()));
        app.commit_editing_zo();
        assert_eq!(app.requirements[0].target_zo, expected, "text {}", text);
    }
}
