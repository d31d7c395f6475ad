use giter::context::Cluster;
use giter::drawer::app::{
    Action, App, Filter, Input, MiniRow, NoteKind, Pane, PodsState, RefKind, Screen, Sort,
    StatusContent,
};
use giter::errors::MsgError;
use giter::pods::{MyContainer, MyPod};
use giter::remote::{LookupError, Mode, RemoteState, Target, Unresolved, Verdict};
use giter::storage::common::Repo;
use giter::storage::json_storage::JsonStorage;

const GATEWAY: &str = "orchard-gateway";
const LEDGER: &str = "orchard-ledger-api";
const MAILER: &str = "tulip-mailer";
const LEFTOVER: &str = "91bd7e40-8103771";
const MISSING: &str = "—";

fn repos(names: &[&str]) -> JsonStorage {
    JsonStorage::from_repos(
        names
            .iter()
            .map(|name| Repo {
                name: name.to_string(),
                url: format!("https://git.example.com/{}", name),
            })
            .collect(),
    )
}

fn app(names: &[&str]) -> App {
    let mut app = App::new(
        names.iter().map(|n| n.to_string()).collect(),
        repos(names),
        Mode::Commit,
        Cluster::default(),
    );

    // the listing App::new asks for is never answered here; moving on a round makes any
    // answer to it stale, so the tests decide what the state is
    app.listing_round += 1;

    app
}

fn pod(namespace: &str, name: &str, tag: &str) -> MyPod {
    MyPod {
        name: name.to_string(),
        namespace: namespace.to_string(),
        containers: vec![MyContainer {
            name: "app".to_string(),
            image: format!("registry.example/{}:{}", namespace, tag),
        }],
        status: "Running".to_string(),
        restarts: 0,
        ready: 1,
        created: None,
        finished: false,
    }
}

/// Puts a namespace in the state it would reach after both lookups came back.
fn settle(app: &mut App, namespace: &str, deployed: &str, reference: &str) {
    let round = app.listing_round;
    app.accept_pods(
        round,
        namespace,
        Ok(vec![pod(namespace, &format!("{}-abc12-x1y2z", namespace), deployed)]),
    );
    app.set_remote(
        namespace,
        RemoteState::Ready(Target {
            commit: reference.to_string(),
            ..Target::default()
        }),
    );
}

fn in_sync(app: &mut App, namespace: &str) {
    settle(app, namespace, "4f1c0f2c-8103771", "4f1c0f2c8b3d4e5a6f708192a3b4c5d6e7f80912");
}

fn behind(app: &mut App, namespace: &str) {
    settle(app, namespace, "91bd7e40-8103771", "4f1c0f2c8b3d4e5a6f708192a3b4c5d6e7f80912");
}

/// Somebody else's workload sharing the namespace: a tag this repository never had.
fn foreign(namespace: &str) -> MyPod {
    MyPod {
        name: format!("{}-mesh-ingress-7c1b9-vd6np", namespace),
        namespace: namespace.to_string(),
        containers: vec![MyContainer {
            name: "mesh-ingress".to_string(),
            image: "registry.example/mesh-ingress:1.21".to_string(),
        }],
        status: "Running".to_string(),
        restarts: 0,
        ready: 1,
        created: None,
        finished: false,
    }
}

/// A pod whose service mesh proxy is injected ahead of the application.
fn proxied(namespace: &str, tag: &str) -> MyPod {
    let mut running = pod(namespace, &format!("{}-abc12-x1y2z", namespace), tag);
    running.containers.insert(
        0,
        MyContainer {
            name: "mesh-proxy".to_string(),
            image: "registry.example/mesh-proxy:1.26.2".to_string(),
        },
    );

    running
}

/// What a CronJob leaves behind: it ran an older commit and then stopped.
fn finished(namespace: &str, tag: &str) -> MyPod {
    MyPod {
        finished: true,
        status: "Completed".to_string(),
        ready: 0,
        ..pod(namespace, &format!("{}-cleaner-29749830-9fmrv", namespace), tag)
    }
}

fn selected_verdict(app: &App) -> Option<Verdict> {
    app.selected_entry().map(|entry| app.namespace_verdict(entry))
}

fn accept(app: &mut App, namespace: &str, pods: Vec<MyPod>) {
    let round = app.listing_round;
    app.accept_pods(round, namespace, Ok(pods));
}

#[test]
fn foreign_pod_does_not_hold_the_namespace_back() {
    let mut app = app(&[GATEWAY]);
    in_sync(&mut app, GATEWAY);
    let mut pods = vec![foreign(GATEWAY)];
    pods.push(pod(GATEWAY, "orchard-gateway-abc12-x1y2z", "4f1c0f2c-8103771"));
    accept(&mut app, GATEWAY, pods);

    assert_eq!(selected_verdict(&app), Some(Verdict::InSync));
}

#[test]
fn foreign_pod_is_not_counted_as_a_deployed_commit() {
    let mut app = app(&[GATEWAY]);
    in_sync(&mut app, GATEWAY);
    let mut pods = vec![foreign(GATEWAY)];
    pods.push(pod(GATEWAY, "orchard-gateway-abc12-x1y2z", "4f1c0f2c-8103771"));
    accept(&mut app, GATEWAY, pods);

    assert_eq!(app.overview_rows().first().map(|row| row.deployed.len()), Some(1));
}

#[test]
fn namespace_of_nothing_but_foreign_pods_says_why() {
    let release = "9d02f4ab3c1d5e7f8091a2b3c4d5e6f708192a3b";
    let mut app = app(&[GATEWAY]);
    app.set_remote(
        GATEWAY,
        RemoteState::Ready(Target {
            commit: release.to_string(),
            name: Some("v3.7.1".to_string()),
            tags: vec![("v3.7.1".to_string(), release.to_string())],
        }),
    );
    accept(&mut app, GATEWAY, vec![foreign(GATEWAY)]);

    assert_eq!(selected_verdict(&app), Some(Verdict::Unknown(Unresolved::Sidecar)));
}

#[test]
fn release_image_in_commit_mode_says_which_mode_would_work() {
    let mut app = app(&[GATEWAY]);
    in_sync(&mut app, GATEWAY);
    accept(
        &mut app,
        GATEWAY,
        vec![pod(GATEWAY, "orchard-gateway-abc12-x1y2z", "v3.7.1-8203114")],
    );

    assert_eq!(selected_verdict(&app), Some(Verdict::Unknown(Unresolved::WrongMode)));
}

#[test]
fn pod_that_has_finished_does_not_make_the_namespace_lag() {
    let mut app = app(&[GATEWAY]);
    in_sync(&mut app, GATEWAY);
    let mut pods = vec![finished(GATEWAY, LEFTOVER)];
    pods.push(pod(GATEWAY, "orchard-gateway-abc12-x1y2z", "4f1c0f2c-8103771"));
    accept(&mut app, GATEWAY, pods);

    assert_eq!(selected_verdict(&app), Some(Verdict::InSync));
}

#[test]
fn pod_that_has_finished_is_not_counted_as_a_deployed_commit() {
    let mut app = app(&[GATEWAY]);
    in_sync(&mut app, GATEWAY);
    let mut pods = vec![finished(GATEWAY, LEFTOVER)];
    pods.push(pod(GATEWAY, "orchard-gateway-abc12-x1y2z", "4f1c0f2c-8103771"));
    accept(&mut app, GATEWAY, pods);

    assert_eq!(app.overview_rows().first().map(|row| row.deployed.len()), Some(1));
}

#[test]
fn namespace_where_nothing_runs_any_more_says_so() {
    let mut app = app(&[GATEWAY]);
    in_sync(&mut app, GATEWAY);
    accept(&mut app, GATEWAY, vec![finished(GATEWAY, LEFTOVER)]);

    assert_eq!(selected_verdict(&app), Some(Verdict::Unknown(Unresolved::Finished)));
}

#[test]
fn pod_that_has_finished_still_shows_what_it_ran() {
    let ran = "91bd7e40";
    let mut app = app(&[GATEWAY]);
    in_sync(&mut app, GATEWAY);
    accept(&mut app, GATEWAY, vec![finished(GATEWAY, LEFTOVER)]);
    app.tick();

    assert_eq!(app.pod_rows().first().map(|row| row.reference.clone()), Some(ran.to_string()));
}

#[test]
fn application_speaks_for_the_pod_not_the_proxy_beside_it() {
    let running = "4f1c0f2c";
    let mut app = app(&[GATEWAY]);
    in_sync(&mut app, GATEWAY);
    accept(&mut app, GATEWAY, vec![proxied(GATEWAY, "4f1c0f2c-8103771")]);

    assert_eq!(
        app.overview_rows().first().map(|row| row.deployed[0].label.clone()),
        Some(running.to_string())
    );
}

#[test]
fn proxy_beside_the_application_does_not_rename_the_column() {
    let mut app = app(&[GATEWAY]);
    in_sync(&mut app, GATEWAY);
    accept(&mut app, GATEWAY, vec![proxied(GATEWAY, "4f1c0f2c-8103771")]);

    assert_eq!(app.deployed_kind(), RefKind::Commits);
}

#[test]
fn column_is_named_after_the_commits_it_holds() {
    let mut app = app(&[GATEWAY]);
    in_sync(&mut app, GATEWAY);

    assert_eq!(app.deployed_kind(), RefKind::Commits);
}

#[test]
fn column_is_named_after_the_tags_it_holds() {
    let mut app = app(&[GATEWAY]);
    in_sync(&mut app, GATEWAY);
    accept(
        &mut app,
        GATEWAY,
        vec![pod(GATEWAY, "orchard-gateway-abc12-x1y2z", "v3.7.1-8203114")],
    );

    assert_eq!(app.deployed_kind(), RefKind::Tags);
}

#[test]
fn column_that_holds_both_is_named_after_neither() {
    let mut app = app(&[GATEWAY, LEDGER]);
    in_sync(&mut app, GATEWAY);
    in_sync(&mut app, LEDGER);
    accept(
        &mut app,
        LEDGER,
        vec![pod(LEDGER, "orchard-ledger-api-abc12-x1y2z", "v3.7.1-8203114")],
    );

    assert_eq!(app.deployed_kind(), RefKind::Mixed);
}

#[test]
fn overview_puts_what_needs_acting_on_first() {
    let mut app = app(&[GATEWAY, LEDGER]);
    in_sync(&mut app, GATEWAY);
    behind(&mut app, LEDGER);

    assert_eq!(app.overview_rows().first().map(|row| row.name.clone()), Some(LEDGER.to_string()));
}

#[test]
fn sorting_by_name_ignores_the_verdict() {
    let mut app = app(&[MAILER, GATEWAY]);
    behind(&mut app, MAILER);
    in_sync(&mut app, GATEWAY);
    app.cycle_sort();

    assert_eq!(app.overview_rows().first().map(|row| row.name.clone()), Some(GATEWAY.to_string()));
}

#[test]
fn problems_filter_drops_what_is_in_sync() {
    let mut app = app(&[GATEWAY, LEDGER]);
    in_sync(&mut app, GATEWAY);
    behind(&mut app, LEDGER);
    app.cycle_filter();

    assert_eq!(app.overview_rows().len(), 1);
}

#[test]
fn search_narrows_the_list_to_what_matches() {
    let mut app = app(&[GATEWAY, LEDGER, MAILER]);
    app.start_search();
    for symbol in "ledger".chars() {
        app.search_push(symbol);
    }
    app.tick();

    assert_eq!(app.matching_namespaces(), 1);
}

#[test]
fn search_ignores_case() {
    let mut app = app(&[GATEWAY, LEDGER, MAILER]);
    app.start_search();
    for symbol in "LedGER".chars() {
        app.search_push(symbol);
    }
    app.tick();

    assert_eq!(app.matching_namespaces(), 1);
}

#[test]
fn cursor_stays_on_the_namespace_it_was_on_when_the_order_changes() {
    let mut app = app(&[GATEWAY, LEDGER]);
    in_sync(&mut app, GATEWAY);
    in_sync(&mut app, LEDGER);
    app.tick();
    app.move_selection(1);
    let followed = app.selected_entry().map(|entry| entry.name.clone());

    behind(&mut app, GATEWAY);
    app.tick();

    assert_eq!(app.selected_entry().map(|entry| entry.name.clone()), followed);
}

#[test]
fn cursor_leaves_a_namespace_the_filter_hides() {
    let mut app = app(&[GATEWAY, LEDGER]);
    in_sync(&mut app, GATEWAY);
    behind(&mut app, LEDGER);
    app.tick();
    app.cycle_filter();
    app.tick();

    assert_eq!(app.selected_entry().map(|entry| entry.name.clone()), Some(LEDGER.to_string()));
}

#[test]
fn answer_from_an_earlier_round_is_dropped() {
    let mut app = app(&[GATEWAY]);
    let stale = app.listing_round;
    app.relist_pods();
    app.accept_pods(
        stale,
        GATEWAY,
        Ok(vec![pod(GATEWAY, "gone-abc12-x1y2z", "4f1c0f2c-8103771")]),
    );

    assert_eq!(app.selected_entry().map(|entry| entry.pod_list().len()), Some(0));
}

#[test]
fn retrying_a_namespace_kubernetes_refused_asks_it_again() {
    let mut app = app(&[GATEWAY]);
    let round = app.listing_round;
    app.accept_pods(round, GATEWAY, Err(MsgError::new("forbidden")));
    app.tick();
    app.refresh_selected();

    assert_eq!(
        app.selected_entry().map(|entry| matches!(entry.pods, PodsState::Listing)),
        Some(true)
    );
}

#[test]
fn nothing_reported_means_nothing_to_dismiss() {
    let mut app = app(&[GATEWAY]);

    assert!(!app.dismiss_note());
}

#[test]
fn reported_action_is_dismissed_once() {
    let mut app = app(&[GATEWAY]);
    app.report(NoteKind::Done, "opened".to_string());
    app.dismiss_note();

    assert!(!app.dismiss_note());
}

#[test]
fn standing_problem_is_marked_as_one() {
    let mut app = app(&[GATEWAY]);
    let round = app.listing_round;
    app.accept_pods(round, GATEWAY, Err(MsgError::new("forbidden")));
    app.tick();

    assert_eq!(app.note().map(|note| note.standing), Some(true));
}

#[test]
fn namespace_missing_from_the_config_is_not_asked_about() {
    let mut app = App::new(
        vec![MAILER.to_string()],
        repos(&[GATEWAY]),
        Mode::Commit,
        Cluster::default(),
    );
    app.tick();

    assert_eq!(app.reference_label(MAILER), MISSING.to_string());
}

// ---------------------------------------------------------------------------------------

#[test]
fn a_new_state_asks_for_every_listing_then_every_configured_reference() {
    let app = App::new(
        vec![GATEWAY.to_string(), MAILER.to_string()],
        repos(&[GATEWAY]),
        Mode::Tag,
        Cluster::default(),
    );
    let mut app = app;
    let actions = app.take_actions();

    assert_eq!(actions.len(), 3);
    assert!(matches!(&actions[0], Action::ListPods { round: 1, namespace } if namespace == GATEWAY));
    assert!(matches!(&actions[1], Action::ListPods { round: 1, namespace } if namespace == MAILER));
    assert!(matches!(
        &actions[2],
        Action::Resolve { mode: Mode::Tag, namespace, url }
            if namespace == GATEWAY && url == "https://git.example.com/orchard-gateway"
    ));
    assert!(app.take_actions().is_empty());
    assert!(matches!(app.remote(MAILER), Some(RemoteState::Unconfigured)));
    assert!(matches!(app.remote(GATEWAY), Some(RemoteState::Loading)));
}

#[test]
fn switching_modes_asks_only_for_what_that_mode_has_not_seen() {
    let mut app = app(&[GATEWAY]);
    app.take_actions();
    app.toggle_mode();
    let first = app.take_actions();
    app.toggle_mode();
    let back = app.take_actions();

    assert_eq!(first.len(), 1);
    assert_eq!(back.len(), 0);
    assert_eq!(app.mode(), Mode::Commit);
}

#[test]
fn a_lookup_answer_is_kept_for_its_own_mode() {
    let mut app = app(&[GATEWAY]);
    app.accept_lookup(Mode::Tag, GATEWAY, Err(LookupError::NoTags));

    assert!(matches!(app.remote(GATEWAY), Some(RemoteState::Loading)));
    app.toggle_mode();
    assert!(matches!(app.remote(GATEWAY), Some(RemoteState::NoTags)));
    assert_eq!(
        app.note().map(|note| note.text),
        Some("orchard-gateway has no tags — try commit mode".to_string())
    );
}

#[test]
fn failed_lookup_is_explained_and_counted() {
    let mut app = app(&[GATEWAY]);
    accept(&mut app, GATEWAY, vec![pod(GATEWAY, "orchard-gateway-abc12-x1y2z", "4f1c0f2c-8103771")]);
    app.accept_lookup(Mode::Commit, GATEWAY, Err(LookupError::Git("no route".to_string())));

    let counts = app.counts();
    assert_eq!(counts.failed, 1);
    assert_eq!(selected_verdict(&app), Some(Verdict::Failed(giter::remote::Failure::Git)));
    assert_eq!(
        app.overview_rows().first().map(|row| row.note.clone()),
        Some("git · no route".to_string())
    );
    let note = app.note().unwrap();
    assert_eq!(note.kind, NoteKind::Error);
    assert!(note.retry);
    assert_eq!(note.text, "orchard-gateway · git ls-remote: no route");
}

#[test]
fn lagging_namespace_says_how_many_pods_lag() {
    let mut app = app(&[GATEWAY]);
    behind(&mut app, GATEWAY);
    let mut pods = vec![pod(GATEWAY, "orchard-gateway-abc12-x1y2z", "91bd7e40-8103771")];
    pods.push(pod(GATEWAY, "orchard-gateway-def34-q9w8e", "4f1c0f2c-8103771"));
    accept(&mut app, GATEWAY, pods);

    let row = app.overview_rows().remove(0);
    assert_eq!(row.verdict, Verdict::Behind);
    assert_eq!(row.note, "1 of 2 pods behind · mixed");
    assert_eq!(row.deployed.len(), 2);
    assert_eq!(row.hidden_deployed, 0);
    assert_eq!(row.reference, "4f1c0f2c");
    assert_eq!(row.pods, Some(2));
}

#[test]
fn deployed_groups_are_counted_and_the_rest_left_out() {
    let mut app = app(&[GATEWAY]);
    in_sync(&mut app, GATEWAY);
    let pods = vec![
        pod(GATEWAY, "orchard-gateway-a-1", "aaaaaaa1-1"),
        pod(GATEWAY, "orchard-gateway-b-1", "bbbbbbb2-1"),
        pod(GATEWAY, "orchard-gateway-b-2", "bbbbbbb2-1"),
        pod(GATEWAY, "orchard-gateway-c-1", "ccccccc3-1"),
        pod(GATEWAY, "orchard-gateway-c-2", "ccccccc3-1"),
    ];
    accept(&mut app, GATEWAY, pods);

    let row = app.overview_rows().remove(0);
    let labels: Vec<(String, usize)> =
        row.deployed.iter().map(|d| (d.label.clone(), d.count)).collect();
    assert_eq!(labels, vec![("bbbbbbb2".to_string(), 2), ("ccccccc3".to_string(), 2)]);
    assert_eq!(row.hidden_deployed, 1);
}

#[test]
fn moving_stops_at_either_end() {
    let mut app = app(&[GATEWAY, LEDGER, MAILER]);
    app.set_narrow(false);
    app.move_selection(isize::MAX);
    assert_eq!(app.ns_position(), Some(2));
    app.move_selection(-1);
    assert_eq!(app.ns_position(), Some(1));
    app.move_selection(isize::MIN);
    assert_eq!(app.ns_position(), Some(0));
    assert_eq!(app.position(), "1/3");
}

#[test]
fn escape_dismisses_then_leaves_then_quits() {
    let mut app = app(&[GATEWAY]);
    app.open_namespace();
    assert_eq!(app.screen(), Screen::Detail);
    app.report(NoteKind::Warn, "nothing here carries a commit".to_string());
    app.back();
    assert_eq!(app.screen(), Screen::Detail);
    app.back();
    assert_eq!(app.screen(), Screen::Overview);
    assert!(!app.should_quit());
    app.back();
    assert!(app.should_quit());
}

#[test]
fn a_note_expires() {
    let mut app = app(&[GATEWAY]);
    app.set_now(1_000);
    app.report(NoteKind::Done, "opened".to_string());
    app.set_now(6_999);
    assert!(app.reported().is_some());
    app.set_now(7_000);
    assert!(app.reported().is_none());
    assert!(!app.dismiss_note());
}

#[test]
fn focus_moves_between_panes_and_stops_at_the_ends() {
    let mut app = app(&[GATEWAY]);
    app.open_namespace();
    assert_eq!(app.pane(), Pane::Pods);
    app.focus_next();
    assert_eq!(app.pane(), Pane::Containers);
    app.focus_next();
    assert_eq!(app.pane(), Pane::Containers);
    app.focus_prev();
    app.focus_prev();
    assert_eq!(app.pane(), Pane::Namespaces);
    app.focus_prev();
    assert_eq!(app.pane(), Pane::Namespaces);
}

#[test]
fn search_is_only_offered_where_the_namespace_list_is_on_screen() {
    let mut app = app(&[GATEWAY]);
    app.open_namespace();
    app.start_search();
    assert_eq!(app.input(), Input::Normal);
    app.focus_prev();
    app.start_search();
    assert_eq!(app.input(), Input::Search);
    app.search_push('x');
    app.search_push('y');
    app.search_pop();
    assert_eq!(app.query(), "x");
    app.end_search(false);
    assert_eq!(app.query(), "");
    assert_eq!(app.input(), Input::Normal);
}

#[test]
fn filter_and_sort_come_back_round() {
    let mut app = app(&[GATEWAY]);
    for _ in 0..3 {
        app.cycle_filter();
        app.cycle_sort();
    }
    assert_eq!(app.filter(), Filter::All);
    assert_eq!(app.sort(), Sort::Status);
    assert_eq!(Filter::Problems.label(), "problems");
    assert_eq!(Sort::Pods.label(), "pods");
}

#[test]
fn opening_a_commit_asks_for_its_page() {
    let mut app = app(&[GATEWAY]);
    in_sync(&mut app, GATEWAY);
    app.tick();
    app.open_namespace();
    app.take_actions();
    app.activate();
    let actions = app.take_actions();

    assert_eq!(actions.len(), 1);
    assert!(matches!(
        &actions[0],
        Action::OpenBrowser { url }
            if url == "https://git.example.com/orchard-gateway/-/commit/4f1c0f2c"
    ));
    app.opened("https://git.example.com/orchard-gateway/-/commit/4f1c0f2c", Ok(()));
    assert_eq!(
        app.note().map(|note| note.text),
        Some("opened https://git.example.com/orchard-gateway/-/commit/4f1c0f2c".to_string())
    );
    app.opened("x", Err("no browser".to_string()));
    assert_eq!(app.note().map(|note| (note.kind, note.text)), Some((NoteKind::Error, "cannot open browser: no browser".to_string())));
}

#[test]
fn a_release_in_commit_mode_cannot_be_opened() {
    let mut app = app(&[GATEWAY]);
    in_sync(&mut app, GATEWAY);
    accept(&mut app, GATEWAY, vec![pod(GATEWAY, "orchard-gateway-abc12-x1y2z", "v3.7.1-8203114")]);
    app.tick();
    app.open_namespace();
    app.focus_containers();
    app.activate();

    assert_eq!(
        app.note().map(|note| note.text),
        Some("cannot resolve v3.7.1 to a commit — try tag mode".to_string())
    );
}

#[test]
fn pod_and_container_rows_take_the_selected_pod_apart() {
    let mut app = app(&[GATEWAY]);
    in_sync(&mut app, GATEWAY);
    let mut running = proxied(GATEWAY, "4f1c0f2c-8103771");
    running.created = Some(1_000);
    running.restarts = 2;
    accept(&mut app, GATEWAY, vec![running]);
    app.set_now(1_000_000 + 125_000);
    app.tick();

    let rows = app.pod_rows();
    assert_eq!(rows.len(), 1);
    assert_eq!(rows[0].prefix, "orchard-gateway-");
    assert_eq!(rows[0].replicaset, "abc12-");
    assert_eq!(rows[0].suffix, "x1y2z");
    assert_eq!(rows[0].age, "2m");
    assert_eq!(rows[0].readiness, "1/2");
    assert_eq!(rows[0].restarts, 2);

    let containers = app.container_rows();
    assert_eq!(containers.len(), 2);
    assert_eq!(containers[0].name, "mesh-proxy");
    assert_eq!(containers[0].tag, "1.26.2");
    assert_eq!(containers[0].verdict, Verdict::Unknown(Unresolved::WrongMode));
    assert_eq!(containers[0].why, "mode · commit mode cannot resolve a version — try tag mode");
    assert_eq!(containers[1].verdict, Verdict::InSync);
    assert_eq!(containers[1].why, "matches 4f1c0f2c");
    assert_eq!(app.containers_title(), "CONTAINERS OF …abc12-x1y2z");
    assert_eq!(
        app.selection_summary(),
        Some("mesh-proxy 1.26.2 · mode · commit mode cannot resolve a version — try tag mode".to_string())
    );
}

#[test]
fn detail_list_groups_namespaces_by_family() {
    let mut app = app(&[GATEWAY, LEDGER, MAILER]);
    app.open_namespace();
    app.tick();

    let rows = app.mini_rows();
    let shape: Vec<String> = rows
        .iter()
        .map(|row| match row {
            MiniRow::Family(f) => format!("# {}", f),
            MiniRow::Namespace(ns) => ns.name.clone(),
        })
        .collect();
    assert_eq!(
        shape,
        vec![
            "# orchard".to_string(),
            GATEWAY.to_string(),
            LEDGER.to_string(),
            "# other".to_string(),
            MAILER.to_string(),
        ]
    );
    assert_eq!(app.mini_selected(), Some(1));
}

#[test]
fn progress_of_the_listing_is_counted() {
    let mut app = app(&[GATEWAY, LEDGER]);
    assert_eq!(app.listing(), Some((0, 2)));
    accept(&mut app, GATEWAY, vec![]);
    assert_eq!(app.listing(), Some((1, 2)));
    accept(&mut app, LEDGER, vec![]);
    assert_eq!(app.listing(), None);
    assert_eq!(app.resolving(), 2);
    assert_eq!(app.total_pods(), 0);
}

#[test]
fn freshness_names_each_side_that_answered() {
    let mut app = app(&[GATEWAY]);
    assert_eq!(app.freshness(), "");
    app.set_now(10_000);
    accept(&mut app, GATEWAY, vec![]);
    app.set_now(250_000);
    app.accept_lookup(Mode::Commit, GATEWAY, Err(LookupError::NoTags));
    app.set_now(262_000);
    assert_eq!(app.freshness(), "k8s 4m ago · git 12s ago");
}

#[test]
fn reference_detail_spells_out_the_comparison() {
    let mut app = app(&[GATEWAY]);
    assert_eq!(app.reference_detail(), ("resolving…".to_string(), String::new()));
    app.set_remote(
        GATEWAY,
        RemoteState::Ready(Target {
            commit: "9d02f4ab3c1d5e7f8091".to_string(),
            name: Some("v3.7.1".to_string()),
            tags: vec![],
        }),
    );
    assert_eq!(
        app.reference_detail(),
        ("v3.7.1 9d02f4ab".to_string(), "tip of the default branch".to_string())
    );
    assert_eq!(app.repo_url(GATEWAY), Some("https://git.example.com/orchard-gateway"));
    assert_eq!(app.repo_url(MAILER), None);
}

#[test]
fn switching_modes_keeps_the_work_already_queued() {
    let mut app = app(&[GATEWAY]);
    let queued = app.pending.len();
    app.toggle_mode();
    let actions = app.take_actions();

    assert_eq!(actions.len(), queued + 1);
    assert!(matches!(
        actions.last(),
        Some(Action::Resolve { mode: Mode::Tag, namespace, url })
            if namespace == GATEWAY && url == "https://git.example.com/orchard-gateway"
    ));
}

#[test]
fn sorting_by_pods_puts_the_busiest_first_and_ties_by_name() {
    let mut app = app(&[LEDGER, GATEWAY, MAILER]);
    accept(&mut app, LEDGER, vec![pod(LEDGER, "orchard-ledger-api-abc12-x1y2z", "4f1c0f2c-8103771")]);
    accept(&mut app, GATEWAY, vec![pod(GATEWAY, "orchard-gateway-abc12-x1y2z", "4f1c0f2c-8103771")]);
    accept(
        &mut app,
        MAILER,
        vec![
            pod(MAILER, "tulip-mailer-abc12-x1y2z", "4f1c0f2c-8103771"),
            pod(MAILER, "tulip-mailer-abc12-q8xzv", "4f1c0f2c-8103771"),
        ],
    );
    app.cycle_sort();
    app.cycle_sort();
    app.tick();

    let names: Vec<String> = app.overview_rows().iter().map(|row| row.name.clone()).collect();
    assert_eq!(names, vec![MAILER.to_string(), GATEWAY.to_string(), LEDGER.to_string()]);
}

#[test]
fn deployed_column_counts_each_reference_once() {
    let mut app = app(&[GATEWAY]);
    in_sync(&mut app, GATEWAY);
    accept(
        &mut app,
        GATEWAY,
        vec![
            pod(GATEWAY, "orchard-gateway-abc12-x1y2z", "4f1c0f2c-8103771"),
            pod(GATEWAY, "orchard-gateway-def34-q8xzv", "91bd7e40-8103771"),
            pod(GATEWAY, "orchard-gateway-abc12-k3m4n", "4f1c0f2c-8103771"),
        ],
    );

    let (groups, hidden) = app.deployed(&app.entries[0]);
    assert_eq!(hidden, 0);
    assert_eq!(groups.len(), 2);
    assert_eq!((groups[0].label.as_str(), groups[0].count), ("4f1c0f2c", 2));
    assert_eq!((groups[1].label.as_str(), groups[1].count), ("91bd7e40", 1));
}

#[test]
fn lookup_progress_counts_the_answers_in() {
    let mut app = app(&[GATEWAY, LEDGER]);
    assert_eq!(app.lookup_progress(), Some((0, 2)));
    in_sync(&mut app, GATEWAY);
    assert_eq!(app.lookup_progress(), Some((1, 2)));
    behind(&mut app, LEDGER);
    assert_eq!(app.lookup_progress(), None);
}

#[test]
fn footer_shows_the_tally_when_nothing_is_to_be_said() {
    let mut app = app(&[GATEWAY]);
    in_sync(&mut app, GATEWAY);
    app.tick();

    assert!(app.note().is_none());
    assert_eq!(app.status_content(false), StatusContent::Summary);
    assert_eq!(app.status_content(true), StatusContent::Summary);
}

#[test]
fn footer_shows_what_just_happened_first() {
    let mut app = app(&[GATEWAY]);
    in_sync(&mut app, GATEWAY);
    app.tick();
    app.report(NoteKind::Warn, "nothing here carries a commit".to_string());

    assert_eq!(app.status_content(true), StatusContent::Note);
}

#[test]
fn footer_shows_the_selection_on_the_detail_screen() {
    let mut app = app(&[GATEWAY]);
    in_sync(&mut app, GATEWAY);
    app.tick();
    app.open_namespace();

    assert_eq!(app.screen(), Screen::Detail);
    assert!(app.note().is_none());
    assert!(app.selection_summary().is_some());
    assert_eq!(app.status_content(false), StatusContent::Selection);
}
