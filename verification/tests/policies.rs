use syncbot::number::{Number, Real};
use syncbot::policy::keywords::{
    canonical_edge_traffic_key, canonical_zone_traffic_key, is_known_edge_traffic_key,
    is_known_lane_type, is_known_preferred_direction, is_known_zone_policy_kind,
    is_known_zone_traffic_key, parse_bool, parse_u64, parse_zone_policy_kind,
};
use syncbot::policy::merge::restrict_edge_semantics;
use syncbot::policy::validate::sort_traffic_issues;
use syncbot::properties::{Properties, Property};
use syncbot::{
    derive_effective_edge_semantics, merge_zone_policy, parse_edge_traffic_semantics,
    parse_traffic_bool, parse_traffic_f64, parse_traffic_string, parse_traffic_u64,
    parse_zone_policy, validate_edge_traffic_properties, validate_zone_traffic_properties,
    EdgeTrafficSemantics, Error, TrafficIssueSeverity, TrafficParseIssue, ZonePolicy,
    ZonePolicyKind,
};

fn number(x: f64) -> Number {
    Number::new(Real::from_bits(x.to_bits()), format!("{x}"))
}

fn props(pairs: &[(&str, &str)]) -> Properties {
    let mut m = Properties::new();
    for (k, v) in pairs {
        m.insert(Property {
            key: (*k).to_string(),
            value: (*v).to_string(),
            number: v.trim().parse::<f64>().ok().map(number),
        });
    }
    m
}

fn float(x: Real) -> f64 {
    f64::from_bits(x.to_bits())
}

fn plus(a: Real, b: Real) -> Real {
    Real::from_bits((float(a) + float(b)).to_bits())
}

fn value(n: &Option<Number>) -> Option<f64> {
    n.as_ref().map(|n| f64::from_bits(n.value.to_bits()))
}

#[test]
fn parse_zone_policy_blocked_upgrades_to_restricted() {
    let p = parse_zone_policy(&props(&[("traffic.blocked", "true")]));
    assert_eq!(p.kind, ZonePolicyKind::Restricted);
    assert!(p.blocks_entry_without_grant);
    assert!(p.blocks_traversal_without_grant);
    assert_eq!(p.blocked, Some(true));
}

#[test]
fn parse_zone_policy_camelcase_aliases_resolve() {
    let p = parse_zone_policy(&props(&[("traffic.maxOccupancy", "3")]));
    assert!(p.capacity_is_explicit);
    assert_eq!(p.capacity, 3);
    assert_eq!(p.kind, ZonePolicyKind::CapacityLimited);
}

#[test]
fn parse_zone_policy_no_stop_implies_stop_allowed_false() {
    let p = parse_zone_policy(&props(&[("traffic.no_stop", "true")]));
    assert_eq!(p.kind, ZonePolicyKind::NoStop);
    assert_eq!(p.stop_allowed, Some(false));
}

#[test]
fn parse_edge_no_stop_clears_stop_allowed() {
    let s = parse_edge_traffic_semantics(&props(&[("traffic.no_stop", "true")]), false);
    assert_eq!(s.no_stop, Some(true));
    assert_eq!(s.stop_allowed, Some(false));
}

#[test]
fn merge_priority_restricted_over_exclusive() {
    let parent = ZonePolicy {
        kind: ZonePolicyKind::ExclusiveAccess,
        ..ZonePolicy::empty()
    };
    let child = ZonePolicy {
        kind: ZonePolicyKind::Restricted,
        ..ZonePolicy::empty()
    };
    let merged = merge_zone_policy(&parent, &child);
    assert_eq!(merged.kind, ZonePolicyKind::Restricted);
    assert!(merged.blocks_entry_without_grant);
    assert_eq!(merged.stop_allowed, Some(false));
}

#[test]
fn merge_capacity_picks_minimum() {
    let mut parent = ZonePolicy::empty();
    parent.capacity = 5;
    parent.capacity_is_explicit = true;
    let mut child = ZonePolicy::empty();
    child.capacity = 2;
    child.capacity_is_explicit = true;
    let merged = merge_zone_policy(&parent, &child);
    assert_eq!(merged.capacity, 2);
    assert!(merged.capacity_is_explicit);
}

#[test]
fn validate_zone_unknown_key_warns() {
    let issues = validate_zone_traffic_properties(&props(&[("traffic.bogus", "x")]));
    assert_eq!(issues.len(), 1);
    assert_eq!(issues[0].severity, TrafficIssueSeverity::Warning);
    assert!(issues[0].message.contains("unknown"));
}

#[test]
fn validate_edge_speed_limit_must_be_positive() {
    let issues = validate_edge_traffic_properties(&props(&[("traffic.speed_limit", "0")]));
    assert!(issues
        .iter()
        .any(|i| i.severity == TrafficIssueSeverity::Error && i.message.contains("positive")));
}

#[test]
fn derive_picks_min_speed_limit_from_zone() {
    let edge_props = props(&[("traffic.speed_limit", "5.0")]);
    let zone_policy = ZonePolicy {
        speed_limit: Some(number(2.0)),
        ..ZonePolicy::empty()
    };
    let s = derive_effective_edge_semantics(&edge_props, true, &vec![zone_policy], &plus);
    assert_eq!(value(&s.speed_limit), Some(2.0));
    assert!(s.directed);
}

#[test]
fn parse_bool_round_trip() {
    assert!(parse_traffic_bool("yes").unwrap());
    match parse_traffic_bool("nope") {
        Err(Error::Parse(m)) => assert_eq!(m, "invalid boolean traffic value: nope"),
        _ => panic!("no boolean"),
    }
}

#[test]
fn parse_zone_policy_roundtrip() {
    let p = parse_zone_policy(&props(&[("traffic.policy", "exclusive")]));
    assert_eq!(p.kind, ZonePolicyKind::ExclusiveAccess);
    assert_eq!(p.properties.get("traffic.policy").map(String::as_str), Some("exclusive"));
}

#[test]
fn a_stated_policy_wins_over_a_capacity() {
    let p = parse_zone_policy(&props(&[("traffic.policy", "exclusive"), ("traffic.capacity", "2")]));
    assert_eq!(p.kind, ZonePolicyKind::ExclusiveAccess);
    assert_eq!(p.capacity, 2);
}

#[test]
fn scalar_values_are_read_or_refused() {
    assert_eq!(parse_traffic_u64(" 12 ").unwrap(), 12);
    assert_eq!(
        parse_traffic_u64("twelve").unwrap_err().to_text(),
        "parse error: invalid unsigned traffic value: twelve"
    );
    assert_eq!(value(&parse_traffic_f64("1.5", Some(number(1.5))).ok()), Some(1.5));
    assert_eq!(
        parse_traffic_f64("fast", None).unwrap_err().to_text(),
        "parse error: invalid numeric traffic value: fast"
    );
    assert_eq!(parse_traffic_string(" dock ").unwrap(), "dock");
    assert_eq!(
        parse_traffic_string("  ").unwrap_err().to_text(),
        "parse error: traffic string value must not be empty"
    );
    assert_eq!(Error::invalid_argument("x").to_text(), "invalid argument: x");
    assert_eq!(Error::not_found("x").to_text(), "not found: x");
    assert_eq!(Error::msg("x").to_text(), "x");
}

#[test]
fn keywords_are_recognised() {
    assert_eq!(parse_bool(" TRUE "), Some(true));
    assert_eq!(parse_bool("off"), Some(false));
    assert_eq!(parse_bool("maybe"), None);
    assert_eq!(parse_u64("+7"), Some(7));
    assert_eq!(parse_zone_policy_kind("Slow"), ZonePolicyKind::Slowdown);
    assert_eq!(parse_zone_policy_kind("whatever"), ZonePolicyKind::Informational);
    assert!(is_known_zone_policy_kind("corridor"));
    assert!(!is_known_zone_policy_kind("corridors"));
    assert!(is_known_preferred_direction("FORWARD"));
    assert!(!is_known_preferred_direction("up"));
    assert!(is_known_lane_type("corridor"));
    assert!(!is_known_lane_type("skyway"));
    assert!(is_known_zone_traffic_key("traffic.maxOccupancy"));
    assert!(!is_known_zone_traffic_key("traffic.bogus"));
    assert!(is_known_edge_traffic_key("traffic.speed_limit"));
    assert_eq!(canonical_zone_traffic_key("traffic.maxOccupancy"), "traffic.max_occupancy");
    assert_eq!(canonical_edge_traffic_key("traffic.speedLimit"), "traffic.speed_limit");
    assert_eq!(canonical_zone_traffic_key("traffic.bogus"), "traffic.bogus");
}

#[test]
fn a_stop_that_is_allowed_and_excluded_is_found() {
    let p = props(&[("traffic.no_stop", "true"), ("traffic.stop_allowed", "true")]);
    for issues in [validate_zone_traffic_properties(&p), validate_edge_traffic_properties(&p)] {
        assert_eq!(issues.len(), 1);
        assert_eq!(issues[0].severity, TrafficIssueSeverity::Warning);
        assert_eq!(issues[0].key, "traffic.stop_allowed");
        assert_eq!(
            issues[0].message,
            "traffic.stop_allowed=true conflicts with traffic.no_stop=true"
        );
    }
}

#[test]
fn every_kind_of_zone_property_is_checked() {
    let p = props(&[
        ("traffic.capacity", "0"),
        ("traffic.policy", "odd"),
        ("traffic.priority", "high"),
        ("traffic.speed_limit", "-1"),
        ("traffic.blocked", "perhaps"),
        ("traffic.entry_rule", "  "),
        ("name", "dock"),
    ]);
    let found: Vec<(String, String)> = validate_zone_traffic_properties(&p)
        .into_iter()
        .map(|i| (i.key, i.message))
        .collect();
    assert_eq!(
        found,
        vec![
            ("traffic.blocked".to_string(), "traffic boolean key must parse as true/false".to_string()),
            ("traffic.capacity".to_string(), "traffic.capacity must be an integer >= 1".to_string()),
            ("traffic.entry_rule".to_string(), "traffic string key must not be empty".to_string()),
            ("traffic.policy".to_string(), "unknown zone policy keyword".to_string()),
            ("traffic.priority".to_string(), "traffic.priority must be numeric".to_string()),
            ("traffic.speed_limit".to_string(), "traffic.speed_limit must be positive".to_string()),
        ]
    );
}

#[test]
fn every_kind_of_edge_property_is_checked() {
    let p = props(&[
        ("traffic.cost_bias", "much"),
        ("traffic.lane_type", "skyway"),
        ("traffic.preferred_direction", "up"),
        ("traffic.reversible", "x"),
        ("traffic.surface_type", ""),
        ("traffic.unheard_of", "1"),
        ("traffic.capacity", "none"),
    ]);
    let found: Vec<String> = validate_edge_traffic_properties(&p)
        .into_iter()
        .map(|i| i.message)
        .collect();
    assert_eq!(
        found,
        vec![
            "traffic.capacity must be an integer >= 1",
            "traffic numeric key must parse as number",
            "unknown lane type keyword",
            "unknown preferred direction keyword",
            "traffic boolean key must parse as true/false",
            "traffic string key must not be empty",
            "unknown edge traffic key",
        ]
    );
}

#[test]
fn issues_are_ordered_by_key_severity_and_message() {
    let issue = |severity, key: &str, message: &str| TrafficParseIssue {
        severity,
        key: key.into(),
        message: message.into(),
    };
    let mut issues = vec![
        issue(TrafficIssueSeverity::Error, "b", "x"),
        issue(TrafficIssueSeverity::Error, "a", "y"),
        issue(TrafficIssueSeverity::Error, "a", "x"),
        issue(TrafficIssueSeverity::Warning, "a", "z"),
    ];
    sort_traffic_issues(&mut issues);
    let shown: Vec<String> = issues.iter().map(|i| format!("{}{}", i.key, i.message)).collect();
    assert_eq!(shown, vec!["az", "ax", "ay", "bx"]);
    assert_eq!(TrafficParseIssue::default().severity, TrafficIssueSeverity::Error);
}

#[test]
fn merging_keeps_what_the_inner_zone_does_not_state() {
    let outer = parse_zone_policy(&props(&[
        ("traffic.access_group", "staff"),
        ("traffic.claim_required", "true"),
        ("traffic.schedule_window", "night"),
        ("a", "1"),
        ("b", "1"),
    ]));
    let inner = parse_zone_policy(&props(&[("traffic.schedule_window", "day"), ("b", "2")]));
    let merged = merge_zone_policy(&outer, &inner);
    assert!(merged.requires_claim);
    assert_eq!(merged.access_group.as_deref(), Some("staff"));
    assert_eq!(merged.schedule_window.as_deref(), Some("day"));
    assert_eq!(merged.properties.get("a").map(String::as_str), Some("1"));
    assert_eq!(merged.properties.get("b").map(String::as_str), Some("2"));
    assert_eq!(merged.capacity, 1);
    assert!(!merged.capacity_is_explicit);
}

#[test]
fn merging_into_nothing_changes_nothing() {
    let p = parse_zone_policy(&props(&[("traffic.capacity", "4"), ("traffic.priority", "2.5")]));
    let merged = merge_zone_policy(&ZonePolicy::empty(), &p);
    assert_eq!(merged.kind, p.kind);
    assert_eq!(merged.capacity, 4);
    assert_eq!(value(&merged.priority), Some(2.5));
    assert_eq!(ZonePolicy::default().capacity, 0);
}

#[test]
fn zones_tighten_what_an_edge_allows() {
    let slow = parse_zone_policy(&props(&[("traffic.policy", "slow"), ("traffic.capacity", "3")]));
    let closed = parse_zone_policy(&props(&[("traffic.blocked", "true"), ("traffic.capacity", "2")]));
    let s = derive_effective_edge_semantics(
        &props(&[("traffic.cost_bias", "0.5"), ("traffic.capacity", "9")]),
        false,
        &vec![slow, closed],
        &plus,
    );
    assert_eq!(s.capacity, Some(2));
    assert_eq!(s.blocked, Some(true));
    assert_eq!(s.no_stop, Some(true));
    assert_eq!(s.stop_allowed, Some(false));
    assert_eq!(s.cost_bias.map(float), Some(1.5));
    assert_eq!(s.requires_claim, Some(false));
    assert_eq!(EdgeTrafficSemantics::default().capacity, None);
}

#[test]
fn strictness_merges_in_any_grouping() {
    let stated: [&[(&str, &str)]; 5] = [
        &[("traffic.policy", "exclusive"), ("traffic.capacity", "3")],
        &[("traffic.blocked", "true")],
        &[("traffic.policy", "shared"), ("traffic.capacity", "2"), ("traffic.priority", "4")],
        &[("traffic.claim_required", "true"), ("traffic.speed_limit", "0.5")],
        &[],
    ];
    let all: Vec<ZonePolicy> = stated.iter().map(|s| parse_zone_policy(&props(s))).collect();
    for a in &all {
        for b in &all {
            for c in &all {
                let left = merge_zone_policy(&merge_zone_policy(a, b), c);
                let right = merge_zone_policy(a, &merge_zone_policy(b, c));
                assert_eq!(left.kind, right.kind);
                assert_eq!(left.capacity, right.capacity);
                assert_eq!(left.requires_claim, right.requires_claim);
                assert_eq!(value(&left.priority), value(&right.priority));
                assert_eq!(value(&left.speed_limit), value(&right.speed_limit));
            }
        }
    }
}

#[test]
fn findings_fit_what_is_read() {
    for blocked in ["true", "maybe", " NO ", ""] {
        for capacity in ["0", "1", "4", "many"] {
            let p = props(&[
                ("traffic.blocked", blocked),
                ("traffic.capacity", capacity),
                ("colour", "red"),
            ]);
            let r = validate_zone_traffic_properties(&p);
            let q = parse_zone_policy(&p);
            let about = |k: &str| r.iter().any(|i| i.key == k);
            assert_eq!(!about("traffic.blocked"), q.blocked.is_some());
            assert_eq!(!about("traffic.capacity"), q.capacity_is_explicit);
            assert!(r.iter().all(|i| i.key.starts_with("traffic.")));
        }
    }
}

#[test]
fn policies_are_compared_by_what_they_state() {
    let a = parse_zone_policy(&props(&[("traffic.priority", "2"), ("a", "1")]));
    let b = parse_zone_policy(&props(&[("traffic.priority", "2"), ("a", "1")]));
    assert!(a == b);
    assert!(a == a.clone());
    assert!(a != parse_zone_policy(&props(&[("traffic.priority", "3"), ("a", "1")])));
    assert!(a != parse_zone_policy(&props(&[("traffic.priority", "2"), ("a", "2")])));
    let odd = parse_zone_policy(&props(&[("traffic.priority", "nan")]));
    assert!(odd != odd.clone());
    let s = parse_edge_traffic_semantics(&props(&[("traffic.lane_type", "Corridor")]), false);
    assert!(s == s.clone());
    assert!(s != parse_edge_traffic_semantics(&props(&[("traffic.lane_type", "Corridor")]), true));
}

#[test]
fn each_slow_zone_adds_one_to_the_cost_bias() {
    let slow = || parse_zone_policy(&props(&[("traffic.policy", "slow")]));
    let plain = || parse_zone_policy(&props(&[]));
    let bias = |pairs: &[(&str, &str)], zones: Vec<ZonePolicy>| {
        derive_effective_edge_semantics(&props(pairs), false, &zones, &plus).cost_bias.map(float)
    };
    assert_eq!(bias(&[], vec![]), None);
    assert_eq!(bias(&[], vec![plain()]), None);
    assert_eq!(bias(&[], vec![slow()]), Some(1.0));
    assert_eq!(bias(&[], vec![slow(), plain(), slow()]), Some(2.0));
    assert_eq!(bias(&[("traffic.cost_bias", "-2.5")], vec![slow()]), Some(-1.5));
    // A stated bias and one from a slow zone are the same.
    let mut stated = derive_effective_edge_semantics(
        &props(&[("traffic.cost_bias", "1")]),
        false,
        &vec![plain()],
        &plus,
    );
    let mut slowed = derive_effective_edge_semantics(&props(&[]), false, &vec![slow()], &plus);
    stated.properties = Properties::new();
    slowed.properties = Properties::new();
    assert!(stated == slowed);
    assert!(restrict_edge_semantics(&props(&[]), false, &vec![slow()]).cost_bias.is_none());
}
