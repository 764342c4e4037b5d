use chat_module::logging::{
    crash_line, panic_message, panic_origin, panic_report, filter_for, filter_from, is_run_suffix, level_or_default, line_head, rotation_name,
    run_file_name, runs_to_prune, severity, stamp_of, count_newlines, Level, LineBudget,
    DEFAULT_LEVEL, KEEP_RUNS, ROTATE_AFTER_LINES, STEM,
};
use tracing_subscriber::EnvFilter;

/// `EnvFilter` reports the directives it kept in an order of its own, so a
/// filter is compared as a set rather than as the string it was built from.
fn directives(filter: EnvFilter) -> Vec<String> {
    let mut kept: Vec<String> = filter
        .to_string()
        .split(',')
        .map(|directive| directive.trim().to_string())
        .collect();
    kept.sort();
    kept
}

#[test]
fn every_default_directive_parses() {
    assert_eq!(
        directives(EnvFilter::new(filter_for(DEFAULT_LEVEL))),
        [
            "chat_module=info",
            "libchat=info",
            "logos_generic_chat=info",
            "warn"
        ]
    );
}

#[test]
fn every_level_applies_to_the_chat_core_and_nothing_else() {
    for level in ["error", "warn", "info", "debug", "trace"] {
        assert_eq!(
            directives(EnvFilter::new(filter_from(None, level_or_default(level)))),
            [
                format!("chat_module={level}"),
                format!("libchat={level}"),
                format!("logos_generic_chat={level}"),
                "warn".to_string()
            ],
            "{level} must reach the chat core's targets alone"
        );
    }
}

#[test]
fn an_unusable_level_is_the_default_one() {
    for requested in ["", "verbose", "INFO", "9"] {
        assert_eq!(level_or_default(requested), DEFAULT_LEVEL);
    }
}

#[test]
fn rust_log_wins_over_the_clients_level() {
    assert_eq!(
        directives(EnvFilter::new(filter_from(Some("libchat=trace"), "error"))),
        ["libchat=trace"]
    );
}

#[test]
fn an_empty_or_unusable_rust_log_is_no_choice_at_all() {
    for env in ["", "   ", "libchat=nonsense"] {
        assert_eq!(
            directives(EnvFilter::new(filter_from(Some(env), "debug"))),
            directives(EnvFilter::new(filter_for("debug"))),
            "{env:?} must leave the client's level standing"
        );
    }
}

#[test]
fn every_level_names_itself_the_way_a_host_reads_it() {
    assert_eq!(severity(Level::Error), "ERROR");
    assert_eq!(severity(Level::Warn), "WARNING");
    assert_eq!(severity(Level::Info), "INFO");
    assert_eq!(severity(Level::Debug), "DEBUG");
    assert_eq!(severity(Level::Trace), "TRACE");
}

#[test]
fn a_line_head_names_severity_then_target() {
    assert_eq!(line_head(Level::Warn, "chat_module::logging"), "WARNING: chat_module::logging: ");
    assert_eq!(line_head(Level::Info, "libchat"), "INFO: libchat: ");
}

#[test]
fn only_this_modules_run_files_carry_a_stamp() {
    assert_eq!(
        stamp_of("chat_module_20260730_142811.log"),
        Some("20260730_142811")
    );
    assert_eq!(
        stamp_of("chat_module_20260730_142811.007.log"),
        Some("20260730_142811")
    );
    for stranger in [
        "chat_ui_20260730_142811.log",
        "chat_module_20260730_142811.log.bak",
        "chat_module_2026073_142811.log",
        "chat_module_20260730_14281x.log",
        "chat_module_20260730_142811.7.log",
        "chat_module.log",
    ] {
        assert_eq!(stamp_of(stranger), None, "{stranger} is not one of ours");
    }
}

#[test]
fn run_suffixes_are_the_file_or_a_numbered_rotation() {
    assert!(is_run_suffix(".log"));
    assert!(is_run_suffix(".001.log"));
    assert!(is_run_suffix(".999.log"));
    assert!(!is_run_suffix(".1.log"));
    assert!(!is_run_suffix(".00a.log"));
    assert!(!is_run_suffix("x001.log"));
    assert!(!is_run_suffix(".001.lgo"));
    assert!(!is_run_suffix(""));
}

#[test]
fn run_files_and_rotations_are_named_from_the_stamp() {
    assert_eq!(run_file_name("20260730_142811"), "chat_module_20260730_142811.log");
    assert_eq!(rotation_name("20260730_142811", 1), "chat_module_20260730_142811.001.log");
    assert_eq!(rotation_name("20260730_142811", 42), "chat_module_20260730_142811.042.log");
    assert_eq!(rotation_name("20260730_142811", 999), "chat_module_20260730_142811.999.log");
    assert_eq!(rotation_name("20260730_142811", 1234), "chat_module_20260730_142811.1234.log");
    // What a run names is one of its own again.
    assert_eq!(stamp_of(&run_file_name("20260730_142811")), Some("20260730_142811"));
    assert_eq!(stamp_of(&rotation_name("20260730_142811", 7)), Some("20260730_142811"));
    assert!(STEM.starts_with("chat_module"));
}

#[test]
fn pruning_keeps_ten_runs_and_counts_a_runs_rotations_as_one() {
    let mut names: Vec<String> = Vec::new();
    for day in 1..=12 {
        let stamp = format!("202607{day:02}_120000");
        names.push(format!("{STEM}_{stamp}.log"));
        names.push(format!("{STEM}_{stamp}.001.log"));
    }
    names.push("chat_ui_20260701_120000.log".to_string());
    names.push("chat_module_notastamp.log".to_string());

    let pruned = runs_to_prune(&names);
    assert_eq!(pruned.len(), names.len());

    let kept: Vec<String> = names
        .iter()
        .zip(pruned.iter())
        .filter(|(_, gone)| !**gone)
        .map(|(name, _)| name.clone())
        .collect();
    assert_eq!(kept.len(), 10 * 2 + 2, "ten runs, and neither stranger");
    assert!(
        kept.contains(&"chat_ui_20260701_120000.log".to_string()),
        "another writer's log is not this module's to delete"
    );
    assert!(
        kept.contains(&"chat_module_notastamp.log".to_string()),
        "a file carrying no stamp belongs to no run"
    );

    let mut sorted = kept.clone();
    sorted.sort();
    let mut stamps: Vec<&str> = sorted.iter().filter_map(|name| stamp_of(name)).collect();
    stamps.dedup();
    assert_eq!(stamps.len(), KEEP_RUNS);
    assert_eq!(
        stamps.first().copied(),
        Some("20260703_120000"),
        "the two oldest runs go, both of their files each"
    );
}

#[test]
fn pruning_a_directory_of_few_runs_removes_nothing() {
    let names: Vec<String> = vec![
        "chat_module_20260101_000000.log".to_string(),
        "chat_module_20260102_000000.log".to_string(),
        "notes.txt".to_string(),
    ];
    assert_eq!(runs_to_prune(&names), vec![false, false, false]);
    assert!(runs_to_prune(&Vec::new()).is_empty());
}

#[test]
fn pruning_goes_by_stamp_not_by_listing_order() {
    // Eleven runs listed newest first: the oldest is last, and it alone goes.
    let mut names: Vec<String> = Vec::new();
    for day in (1..=11).rev() {
        names.push(format!("chat_module_202608{day:02}_090000.log"));
    }
    let pruned = runs_to_prune(&names);
    let gone: Vec<&String> = names.iter().zip(pruned.iter()).filter(|(_, g)| **g).map(|(n, _)| n).collect();
    assert_eq!(gone, vec!["chat_module_20260801_090000.log"]);
}

#[test]
fn newlines_are_counted_exactly() {
    assert_eq!(count_newlines(b""), 0);
    assert_eq!(count_newlines(b"no end"), 0);
    assert_eq!(count_newlines(b"a\nb\n\n"), 3);
}

#[test]
fn a_full_budget_names_the_next_rotation_and_starts_over() {
    let mut budget = LineBudget::new();
    assert_eq!(budget.lines, 0);
    assert_eq!(budget.record_write(b"one line\n"), None);
    assert_eq!(budget.lines, 1);
    for _ in 1..(ROTATE_AFTER_LINES - 1) {
        assert_eq!(budget.record_write(b"INFO: libchat: something happened\n"), None);
    }
    assert_eq!(budget.lines, ROTATE_AFTER_LINES - 1);
    assert_eq!(budget.record_write(b"the last one\n"), Some(1));
    assert_eq!(budget.lines, 0);
    assert_eq!(budget.rotations, 1);
    // A write without a line feed costs nothing.
    assert_eq!(budget.record_write(b"partial"), None);
    assert_eq!(budget.lines, 0);
}

#[test]
fn a_crash_is_reported_with_its_place_and_message() {
    let origin = panic_origin(Some(("group_v1.rs", 340, 14)));
    assert_eq!(origin, "group_v1.rs:340:14");
    assert_eq!(panic_origin(None), "<unknown location>");
    assert_eq!(panic_message(Some("boom")), "boom");
    assert_eq!(panic_message(None), "<non-string panic payload>");
    assert_eq!(panic_report(&origin, "boom"), "chat_module: panic at group_v1.rs:340:14: boom");
    assert_eq!(
        crash_line(&origin, "boom"),
        "CRITICAL: chat_module: panic at group_v1.rs:340:14: boom"
    );
    assert_eq!(panic_origin(Some(("a.rs", 0, 4294967295))), "a.rs:0:4294967295");
}
