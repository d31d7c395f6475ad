use giter::text::{ellipsize, family_prefix, fit_head, shared_prefix, short_duration, split_pod_name};

fn names(names: &[&str]) -> Vec<String> {
    names.iter().map(|n| n.to_string()).collect()
}

#[test]
fn family_is_the_first_prefix_another_name_shares() {
    let all = names(&["orchard-gateway", "orchard-ledger-api", "nimbus-index-component"]);

    // a family groups a whole product, not one of its levels
    assert_eq!(family_prefix("orchard-ledger-api", &all), "orchard-");
}

#[test]
fn prefix_the_whole_family_repeats_is_dimmed_in_full() {
    let all = names(&["nimbus-cache-component", "nimbus-cache-warmer"]);

    assert_eq!(shared_prefix("nimbus-cache-component", &all), "nimbus-cache-");
}

#[test]
fn prefix_stops_where_the_family_diverges() {
    let all = names(&["nimbus-cache-component", "nimbus-cache-warmer", "nimbus-index-component"]);

    // dimming nimbus-cache- would hide what tells the two apart
    assert_eq!(shared_prefix("nimbus-cache-component", &all), "nimbus-");
}

#[test]
fn name_outside_any_family_is_shown_whole() {
    let all = names(&["driftwood", "orchard-gateway", "orchard-ledger-api"]);

    assert_eq!(shared_prefix("driftwood", &all), "");
}

#[test]
fn name_standing_alone_keeps_its_whole_label() {
    let all = names(&["pigeon-post", "orchard-gateway", "driftwood"]);

    assert_eq!(family_prefix("pigeon-post", &all), "");
}

#[test]
fn name_without_a_separator_has_no_prefix() {
    let all = names(&["driftwood", "driftwood-proxy"]);

    assert_eq!(family_prefix("driftwood", &all), "");
}

#[test]
fn pod_name_gives_up_the_namespace_prefix() {
    let parts = split_pod_name("orchard-gateway-6b9f4c2d71-q8xzv", "orchard-gateway");

    assert_eq!(parts.prefix, "orchard-gateway-");
}

#[test]
fn pod_name_keeps_the_replicaset_hash_apart() {
    let parts = split_pod_name("pigeon-post-58d3a0e4bc-mk2wr", "pigeon-post");

    assert_eq!(parts.replicaset, "58d3a0e4bc-");
}

#[test]
fn pod_name_ends_with_the_telling_suffix() {
    let suffix = "vd6np";
    let name = format!("tulip-mailer-7c1b9e5a04-{}", suffix);
    let parts = split_pod_name(&name, "tulip-mailer");

    assert_eq!(parts.suffix, suffix);
}

#[test]
fn stateful_set_pod_has_no_replicaset_hash() {
    let parts = split_pod_name("driftwood-0", "driftwood");

    // an ordinal is not a ReplicaSet hash
    assert_eq!(parts.replicaset, "");
}

#[test]
fn pod_not_named_after_its_namespace_keeps_the_whole_name() {
    let parts = split_pod_name("mesh-ingress-abc12-xyz", "orchard-gateway");

    assert_eq!(parts.prefix, "");
}

#[test]
fn age_below_a_minute_is_counted_in_seconds() {
    assert_eq!(short_duration(42), "42s".to_string());
}

#[test]
fn age_below_an_hour_is_counted_in_minutes() {
    assert_eq!(short_duration(18 * 60 + 30), "18m".to_string());
}

#[test]
fn age_below_a_day_is_counted_in_hours() {
    assert_eq!(short_duration(5 * 3_600), "5h".to_string());
}

#[test]
fn older_than_a_day_is_counted_in_days() {
    assert_eq!(short_duration(6 * 86_400 + 7_000), "6d".to_string());
}

#[test]
fn clock_skew_does_not_produce_a_negative_age() {
    // a pod created in the future is shown as brand new
    assert_eq!(short_duration(-90), "0s".to_string());
}

#[test]
fn text_that_fits_is_left_alone() {
    let tag = "v1.4.7-8112430";

    assert_eq!(ellipsize(tag, 20), tag.to_string());
}

#[test]
fn text_that_does_not_fit_is_marked_as_cut() {
    assert_eq!(ellipsize("CrashLoopBackOff", 9), "CrashLoo…".to_string());
}

#[test]
fn multibyte_text_is_cut_by_characters() {
    // cutting by bytes would split the ellipsis of the previous cut
    assert_eq!(ellipsize("не влезает", 4), "не …".to_string());
}

#[test]
fn no_room_at_all_yields_nothing() {
    assert_eq!(ellipsize("forbidden", 0), String::new());
}

#[test]
fn head_and_tail_that_fit_are_left_alone() {
    let (head, _) = fit_head("orchard-", "gateway", 20);

    assert_eq!(head, "orchard-".to_string());
}

#[test]
fn head_gives_up_room_before_the_tail_does() {
    let (head, _) = fit_head("orchard-ledger-", "worker", 16);

    // the repeated part is the one worth losing
    assert_eq!(head, "…d-ledger-".to_string());
}

#[test]
fn telling_tail_survives_a_narrow_column() {
    let suffix = "vd6np";
    let (_, tail) = fit_head("tulip-mailer-7c1b9e5a04-", suffix, 9);

    assert_eq!(tail, suffix.to_string());
}

#[test]
fn tail_longer_than_the_column_is_cut_itself() {
    let (head, tail) = fit_head("nimbus-", "cache-component", 8);

    // nothing else can be given up at this point
    assert_eq!((head, tail), (String::new(), "cache-c…".to_string()));
}

#[test]
fn family_prefix_takes_the_shortest_shared_prefix() {
    let all = names(&["a-b-c", "a-b-d", "a-x"]);

    assert_eq!(family_prefix("a-b-c", &all), "a-");
    assert_eq!(shared_prefix("a-b-c", &all), "a-");
    assert_eq!(shared_prefix("a-x", &all), "a-");
}

#[test]
fn split_pod_name_puts_the_name_back_together() {
    for (pod, ns) in [
        ("orchard-gateway-6b9f4c2d71-q8xzv", "orchard-gateway"),
        ("driftwood-0", "driftwood"),
        ("plain", "other"),
        ("ns-", "ns"),
    ] {
        let parts = split_pod_name(pod, ns);
        assert_eq!(format!("{}{}{}", parts.prefix, parts.replicaset, parts.suffix), pod);
    }
}

#[test]
fn every_unit_boundary_is_exact() {
    assert_eq!(short_duration(0), "0s");
    assert_eq!(short_duration(59), "59s");
    assert_eq!(short_duration(60), "1m");
    assert_eq!(short_duration(3_599), "59m");
    assert_eq!(short_duration(3_600), "1h");
    assert_eq!(short_duration(86_399), "23h");
    assert_eq!(short_duration(86_400), "1d");
    assert_eq!(short_duration(i64::MIN), "0s");
    assert_eq!(short_duration(i64::MAX), format!("{}d", i64::MAX / 86_400));
}

#[test]
fn one_column_leaves_only_the_mark() {
    assert_eq!(ellipsize("abc", 1), "…");
    assert_eq!(fit_head("abcdef", "xy", 3), ("…".to_string(), "xy".to_string()));
}
