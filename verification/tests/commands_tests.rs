use stattracker::paths::PathStyle;
use stattracker::commands::{
    assemble_bootstrap, bootstrap_config, clamp_to_work_area, config_from_input,
    folder_dialog_start, next_template_id, pending_or_configured, plan_saved_state,
    question_types_source_changed, sort_templates_by_name, substitute, template_from_files,
    template_meta,
    template_payload,
    widget_position, add_frame, monitor_rect, rect_center, OuterRect, SaveConfigInput,
    TemplateInfo, TemplateMeta, TemplatePayload,
};
use stattracker::config::Config;
use stattracker::db::{empty_stats, question_type_rows, Desk, QuestionType};
use stattracker::error::AppError;
use stattracker::json::JsonValue;

fn complete_config() -> Config {
    let mut c = Config::defaults("/data".to_string());
    c.base_url = "https://stats.example.org/".to_string();
    c.desk_id = 7;
    c.desk_name = "Reference".to_string();
    c.org_name = "City Library".to_string();
    c
}

#[test]
fn placeholders_are_filled() {
    let c = complete_config();
    assert_eq!(
        substitute("<h1>{{deskName}} @ {{orgName}}</h1><title>{{windowTitle}}</title>".to_string(), &c),
        "<h1>Reference @ City Library</h1><title>StatTracker</title>"
    );
    assert_eq!(substitute("{{deskName}}{{deskName}}".to_string(), &c), "ReferenceReference");
    assert_eq!(substitute("plain".to_string(), &c), "plain");
}

#[test]
fn template_payloads_take_described_values_or_defaults() {
    let p = template_payload(
        "horizontal",
        TemplateMeta { name: None, width: None, height: None },
        "h".to_string(),
        "c".to_string(),
        "j".to_string(),
    );
    assert_eq!((p.name.as_str(), p.width, p.height), ("horizontal", 720, 88));
    let q = template_payload(
        "tall",
        TemplateMeta { name: Some("Tall".to_string()), width: Some(4294967296 + 300), height: Some(600) },
        String::new(),
        String::new(),
        String::new(),
    );
    assert_eq!((q.name.as_str(), q.width, q.height), ("Tall", 300, 600));
}

fn info(id: &str, name: &str) -> TemplateInfo {
    TemplateInfo { id: id.to_string(), name: name.to_string(), width: 1, height: 1 }
}

#[test]
fn templates_sort_by_name_keeping_ties_in_order() {
    let sorted = sort_templates_by_name(vec![
        info("v", "Vertical"),
        info("h", "Horizontal"),
        info("h2", "Horizontal"),
        info("a", "Alpha"),
        info("z", "zeta"),
    ]);
    let ids: Vec<&str> = sorted.iter().map(|t| t.id.as_str()).collect();
    assert_eq!(ids, vec!["a", "h", "h2", "v", "z"]);
}

#[test]
fn cycling_moves_to_the_next_template_and_wraps() {
    let ids = vec!["a".to_string(), "b".to_string(), "c".to_string()];
    assert_eq!(next_template_id(&ids, "a"), Some("b".to_string()));
    assert_eq!(next_template_id(&ids, "c"), Some("a".to_string()));
    assert_eq!(next_template_id(&ids, "missing"), Some("b".to_string()));
    assert_eq!(next_template_id(&vec!["only".to_string()], "only"), None);
    let mut current = "b".to_string();
    for _ in 0..ids.len() {
        current = next_template_id(&ids, &current).unwrap();
    }
    assert_eq!(current, "b");
}

#[test]
fn saved_settings_are_checked_and_normalized() {
    let input = SaveConfigInput {
        base_url: "https://stats.example.org".to_string(),
        desk_id: 7,
        desk_name: "Reference".to_string(),
        org_name: String::new(),
        window_title: String::new(),
        storage_directory: "/ignored".to_string(),
        update_mode: String::new(),
        autostart: true,
        always_on_top: false,
        unfocused_opacity: 0,
        inactivity_enabled: false,
        inactivity_minutes: 0,
        inactivity_message: String::new(),
        active_template: String::new(),
    };
    let c = config_from_input(input.clone(), "/data".to_string(), PathStyle::Unix).unwrap();
    assert_eq!(c.base_url, "https://stats.example.org/");
    assert_eq!(c.storage_directory, "/data");
    assert_eq!(c.update_mode, "notify");
    assert_eq!(c.active_template, "horizontal");
    assert_eq!(c.window_title, "StatTracker");
    let mut no_desk = input;
    no_desk.desk_id = 0;
    assert_eq!(
        config_from_input(no_desk, "/data".to_string(), PathStyle::Unix).unwrap_err(),
        AppError::Message("A base URL, desk, and storage location are required.".to_string())
    );
}

#[test]
fn question_types_are_refetched_when_their_source_changes() {
    let c = complete_config();
    assert!(!question_types_source_changed(Some(&c), &c));
    let mut other = c.clone();
    other.desk_id = 8;
    assert!(question_types_source_changed(Some(&c), &other));
    assert!(question_types_source_changed(None, &c));
    let incomplete = Config::defaults("/data".to_string());
    assert!(question_types_source_changed(Some(&incomplete), &c));
}

fn desk(id: i64) -> Desk {
    Desk { id, name: format!("Desk {id}") }
}

#[test]
fn save_plan_prefers_database_desks() {
    let c = complete_config();
    let p = plan_saved_state(Some(&c), &c, false, vec![desk(1)], vec![desk(2)]);
    assert_eq!(p.desks.len(), 1);
    assert_eq!(p.desks[0].id, 1);
    assert!(!p.reseed_desks);
    assert!(!p.needs_remote_types);
    let q = plan_saved_state(Some(&c), &c, true, vec![], vec![desk(2)]);
    assert_eq!(q.desks[0].id, 2);
    assert!(q.reseed_desks);
    assert!(q.needs_remote_types);
    let r = plan_saved_state(None, &c, false, vec![], vec![]);
    assert!(!r.reseed_desks);
    assert!(r.needs_remote_types);
}

#[test]
fn bootstrap_shows_defaults_and_strips_prefixes() {
    let shown = bootstrap_config(None, r"\\?\C:\Users\demo".to_string());
    assert_eq!(shown.storage_directory, r"C:\Users\demo");
    assert_eq!(shown.window_title, "StatTracker");
    let c = complete_config();
    let payload = TemplatePayload {
        id: "horizontal".to_string(),
        name: "Horizontal".to_string(),
        html: "<b>{{deskName}}</b>".to_string(),
        css: String::new(),
        js: String::new(),
        width: 720,
        height: 88,
    };
    let b = assemble_bootstrap(
        c,
        vec![QuestionType { id: 1, name: "Q".to_string(), description: String::new(), sort_order: 0 }],
        Some(vec![]),
        vec![desk(5)],
        empty_stats(),
        true,
        None,
        Some(payload.clone()),
        vec![info("horizontal", "Horizontal")],
        "/default".to_string(),
        Some(r"\\?\UNC\srv\share".to_string()),
    );
    assert!(b.configured);
    assert_eq!(b.template.unwrap().html, "<b>Reference</b>");
    assert_eq!(b.desks[0].id, 5);
    assert_eq!(b.templates.len(), 1);
    assert_eq!(b.pending_storage, Some(r"\\srv\share".to_string()));
    let unset = assemble_bootstrap(
        Config::defaults(String::new()),
        vec![],
        None,
        vec![],
        empty_stats(),
        false,
        Some("offline".to_string()),
        Some(payload),
        vec![info("horizontal", "Horizontal")],
        "/default".to_string(),
        None,
    );
    assert!(!unset.configured);
    assert!(unset.template.is_none());
    assert!(unset.templates.is_empty());
    assert_eq!(unset.last_error, Some("offline".to_string()));
}

#[test]
fn storage_choice_and_dialog_start() {
    assert_eq!(pending_or_configured(Some("/p".to_string()), Some("/c".to_string())), Some("/p".to_string()));
    assert_eq!(pending_or_configured(None, Some("/c".to_string())), Some("/c".to_string()));
    assert_eq!(pending_or_configured(None, Some(String::new())), None);
    assert_eq!(pending_or_configured(None, None), None);
    assert_eq!(folder_dialog_start("/a/b".to_string(), true, Some("/a".to_string()), true), Some("/a/b".to_string()));
    assert_eq!(folder_dialog_start("/a/b".to_string(), false, Some("/a".to_string()), true), Some("/a".to_string()));
    assert_eq!(folder_dialog_start("/a/b".to_string(), false, Some("/a".to_string()), false), None);
    assert_eq!(folder_dialog_start("/".to_string(), false, None, false), None);
}

#[test]
fn widget_stays_inside_the_work_area() {
    assert_eq!(clamp_to_work_area(5000, -20, 300, 100, 0, 0, 1920, 1040, 12), (1608, 12));
    assert_eq!(clamp_to_work_area(500, 400, 300, 100, 0, 0, 1920, 1040, 12), (500, 400));
    assert_eq!(clamp_to_work_area(500, 400, 3000, 100, 0, 0, 1920, 1040, 12), (12, 400));
    let bounds = (0, 0, 1920, 1040);
    assert_eq!(widget_position(300, 100, bounds, true, None), (1608, 928));
    let prior = OuterRect { x: 100, y: 100, width: 200, height: 80 };
    assert_eq!(widget_position(300, 100, bounds, false, Some(prior)), (12, 80));
    assert_eq!(add_frame(300, 316, 300), 316);
    assert_eq!(add_frame(300, 300, 316), 300);
    assert_eq!(monitor_rect(-1920, 0, 1920, 1080), (-1920, 0, 0, 1080));
    assert_eq!(rect_center(&prior), (200, 140));
}

#[test]
fn question_type_rows_fill_missing_sort_orders() {
    let types = vec![
        QuestionType { id: 1, name: "A".to_string(), description: String::new(), sort_order: 0 },
        QuestionType { id: 2, name: "B".to_string(), description: String::new(), sort_order: 9 },
        QuestionType { id: 3, name: "C".to_string(), description: String::new(), sort_order: 0 },
    ];
    let rows = question_type_rows(&types);
    let orders: Vec<i64> = rows.iter().map(|r| r.sort_order).collect();
    assert_eq!(orders, vec![0, 9, 2]);
    let s = empty_stats();
    assert_eq!((s.last_hour, s.today, s.week, s.month, s.year), (0, 0, 0, 0, 0));
}

#[test]
fn template_manifests_are_read_from_their_json() {
    let p = template_from_files(
        "vertical",
        Some(r#"{"name": "Vertical", "window": {"width": 180, "height": 520}}"#),
        "<div></div>".to_string(),
        "div{}".to_string(),
        "run()".to_string(),
    )
    .unwrap();
    assert_eq!((p.id.as_str(), p.name.as_str(), p.width, p.height), ("vertical", "Vertical", 180, 520));
    assert_eq!((p.html.as_str(), p.css.as_str(), p.js.as_str()), ("<div></div>", "div{}", "run()"));
    let q = template_from_files(
        "odd",
        Some(r#"{"name": 7, "window": {"width": -3, "height": 2.5}}"#),
        String::new(),
        String::new(),
        String::new(),
    )
    .unwrap();
    assert_eq!((q.name.as_str(), q.width, q.height), ("odd", 720, 88));
    let r = template_from_files("plain", None, String::new(), String::new(), String::new()).unwrap();
    assert_eq!((r.name.as_str(), r.width, r.height), ("plain", 720, 88));
    let a = template_from_files("list", Some("[1, 2]"), String::new(), String::new(), String::new()).unwrap();
    assert_eq!(a.name, "list");
    assert!(matches!(
        template_from_files("bad", Some("{not json"), String::new(), String::new(), String::new()),
        Err(AppError::Message(m)) if !m.is_empty()
    ));
}

#[test]
fn manifest_fields_are_looked_up_by_member() {
    let doc = JsonValue::Object(vec![
        ("name".to_string(), JsonValue::Str("Wide".to_string())),
        (
            "window".to_string(),
            JsonValue::Object(vec![
                ("width".to_string(), JsonValue::Unsigned(900)),
                ("height".to_string(), JsonValue::OtherNumber),
            ]),
        ),
    ]);
    let m = template_meta(&doc);
    assert_eq!(m.name.as_deref(), Some("Wide"));
    assert_eq!(m.width, Some(900));
    assert_eq!(m.height, None);
    let bare = template_meta(&JsonValue::Array(vec![JsonValue::Null]));
    assert_eq!((bare.name, bare.width, bare.height), (None, None, None));
}
