use launch_deck::facts::{
    fleet_facts, focus_forge_facts, human_age, lathe_facts, ollama_facts, origin, pavlok_facts, FocusGate, SurfaceFact,
};

fn by<'a>(facts: &'a [SurfaceFact], label: &str) -> Option<&'a SurfaceFact> {
    facts.iter().find(|f| f.label == label)
}

#[test]
fn origin_strips_the_path() {
    assert_eq!(origin("http://127.0.0.1:4173"), "http://127.0.0.1:4173");
    assert_eq!(origin("http://127.0.0.1:11434/api/tags"), "http://127.0.0.1:11434");
    assert_eq!(origin("https://example.com/foo?bar=1"), "https://example.com");
}

#[test]
fn an_origin_without_a_scheme_is_http() {
    assert_eq!(origin("localhost:8080/x"), "http://localhost:8080");
}

const FLEET_HEALTH: &str = r#"{"ok":true,"problems":[],"uptimeSec":11226,
    "dryRun":false,"auth":"plan","activeRuns":2,"armed":7,
    "schedulerEnabled":true,"disarmed":[],
    "limits":{"fiveHourPct":84,"sevenDayPct":55,"status":"allowed",
              "subscription":"max","available":true}}"#;

#[test]
fn fleet_reads_the_fields_the_real_endpoint_sends() {
    let facts = fleet_facts(Some(FLEET_HEALTH));
    assert_eq!(by(&facts, "Active runs").map(|f| f.value.as_str()), Some("2"));
    assert_eq!(by(&facts, "Armed").map(|f| f.value.as_str()), Some("7"));
    assert_eq!(by(&facts, "5-hour window").map(|f| f.value.as_str()), Some("84%"));
    assert!(!by(&facts, "5-hour window").unwrap().alert);
    assert!(by(&facts, "Problems").is_none(), "an empty problem list must not render a fact");
}

#[test]
fn fleet_still_reads_a_503_body_and_flags_problems() {
    let body = r#"{"ok":false,"problems":["plan windows unreadable"],"activeRuns":0,
                   "armed":7,"limits":{"fiveHourPct":97}}"#;
    let facts = fleet_facts(Some(body));
    let problems = by(&facts, "Problems").expect("problems fact");
    assert_eq!(problems.value, "1");
    assert!(problems.alert, "a problem must be marked as one");
    assert!(by(&facts, "5-hour window").unwrap().alert, "97% of the window is an alert");
}

#[test]
fn lathe_sums_request_counts_across_nested_routes() {
    let health = r#"{"lathe":"ok","ollama":true,
                     "models":["nomic-embed-text:latest","qwen3:8b","qwen3:30b-a3b"]}"#;
    let stats = r#"{"code -> qwen2.5-coder:7b":{"count":26,"avg_total_ms":5507},
                    "heavy -> qwen3:8b":{"count":18,"avg_total_ms":22024},
                    "explicit -> qwen3:8b":{"count":101,"avg_total_ms":4783}}"#;
    let facts = lathe_facts(Some(health), Some(stats));
    assert_eq!(by(&facts, "Requests").map(|f| f.value.as_str()), Some("145"));
    assert_eq!(by(&facts, "Models").map(|f| f.value.as_str()), Some("3"));
    assert_eq!(by(&facts, "Ollama").map(|f| f.value.as_str()), Some("up"));
}

#[test]
fn lathe_flags_a_dead_ollama_as_an_alert() {
    let facts = lathe_facts(Some(r#"{"lathe":"ok","ollama":false,"models":[]}"#), None);
    let ollama = by(&facts, "Ollama").expect("ollama fact");
    assert_eq!(ollama.value, "down");
    assert!(ollama.alert);
    assert!(by(&facts, "Requests").is_none());
}

#[test]
fn ollama_counts_installed_and_loaded_models() {
    let tags = r#"{"models":[{"name":"qwen3:30b-a3b"},{"name":"qwen3:8b"}]}"#;
    let ps = r#"{"models":[{"name":"qwen2.5-coder:7b"}]}"#;
    let facts = ollama_facts(Some(tags), Some(ps));
    assert_eq!(by(&facts, "Installed").map(|f| f.value.as_str()), Some("2"));
    assert_eq!(by(&facts, "Loaded").map(|f| f.value.as_str()), Some("1"));
}

#[test]
fn an_unreachable_origin_returns_no_facts_never_fabricated() {
    assert!(fleet_facts(None).is_empty());
    assert!(ollama_facts(None, None).is_empty());
    assert!(lathe_facts(None, None).is_empty());
    assert!(fleet_facts(Some("<html>not json</html>")).is_empty());
}

#[test]
fn pavlok_reads_the_event_and_ignores_junk() {
    let now = 1_788_456_000_000_i64; // 2026-09-03T17:20:00Z
    let text = "\n2026-09-03T16:57:00.822Z limit zap 10 | [Focus-Forge] Usage limit hit\n";
    let facts = pavlok_facts(Some(text), now);
    assert_eq!(by(&facts, "Event").map(|f| f.value.as_str()), Some("limit zap 10"));
    assert_eq!(by(&facts, "Last alert").map(|f| f.value.as_str()), Some("22m ago"));

    assert!(pavlok_facts(Some("hello\n"), now).iter().all(|f| f.label != "Last alert"));
    assert!(pavlok_facts(None, now).is_empty());
}

#[test]
fn ages_use_the_unit_that_fits() {
    assert_eq!(human_age(0), "0s ago");
    assert_eq!(human_age(59), "59s ago");
    assert_eq!(human_age(60), "1m ago");
    assert_eq!(human_age(3599), "59m ago");
    assert_eq!(human_age(3600), "1h ago");
    assert_eq!(human_age(86_399), "23h ago");
    assert_eq!(human_age(86_400 * 3 + 5), "3d ago");
}

#[test]
fn focus_forge_reads_balance_flow_and_a_closed_gate() {
    // 19.3, 30.0 and 124.5 minutes, rounded as the reader rounds them.
    let facts = focus_forge_facts(
        Some(19),
        Some("earning"),
        Some(FocusGate { enabled: true, met: false, remaining_min: 30 }),
        Some(125),
    );
    let by = |l: &str| facts.iter().find(|f| f.label == l).expect(l);
    assert_eq!(by("Play credit").value, "19 min");
    assert_eq!(by("Now").value, "earning");
    assert_eq!(by("Gate").value, "30 min left");
    assert!(by("Gate").alert, "a closed priority gate is the alert case");
    assert_eq!(by("Work today").value, "2h 5m");
}

#[test]
fn a_met_or_disabled_priority_rule_is_no_alert() {
    let met = focus_forge_facts(None, None, Some(FocusGate { enabled: true, met: true, remaining_min: 9 }), None);
    assert_eq!(met.len(), 1);
    assert_eq!((met[0].value.as_str(), met[0].alert), ("met", false));
    let off = focus_forge_facts(None, None, Some(FocusGate { enabled: false, met: false, remaining_min: 9 }), None);
    assert!(off.is_empty());
}
