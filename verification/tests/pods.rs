use giter::pods::{
    finished_phase, is_calm, ready_count, status_reason, total_restarts, ContainerState,
    MyContainer, MyPod,
};
use giter::remote::ImageRef;

fn container(image: &str) -> MyContainer {
    MyContainer::new("app".to_string(), image.to_string())
}

#[test]
fn branch_build_carries_a_commit() {
    let commit = "8745ffc5";
    let cont = container(&format!("registry.example/admin-api:{}-5392582", commit));

    assert_eq!(cont.image_ref(), Some(ImageRef::Commit(commit.to_string())));
}

#[test]
fn release_build_carries_a_tag() {
    let release = "v0.44.3";
    let cont = container(&format!("registry.example/public-api:{}-5325504", release));

    assert_eq!(cont.image_ref(), Some(ImageRef::Tag(release.to_string())));
}

#[test]
fn image_without_a_tag_has_no_reference() {
    let cont = container("registry.example/products/keppel");

    assert_eq!(cont.image_ref(), None);
}

#[test]
fn registry_port_is_not_read_as_a_tag() {
    let cont = container("registry.example:5000/mellivora/npm-component");

    // the port belongs to the registry host
    assert_eq!(cont.tag(), None);
}

#[test]
fn image_pinned_by_digest_has_no_tag() {
    let digest = "sha256:2424c1850714a4d94666ec928e24d86de958646737b1d113f5b2207be44d37d8";
    let cont = container(&format!("registry.example/debian-component@{}", digest));

    // a digest is not a tag
    assert_eq!(cont.tag(), None);
}

#[test]
fn tag_is_the_part_after_the_colon() {
    let tag = "1885c684-5432308";
    let cont = container(&format!("registry.example/rpm-component:{}", tag));

    assert_eq!(cont.tag(), Some(tag));
}

#[test]
fn short_image_drops_the_registry() {
    let image = "pypi-component:99f6dabd-5432278";
    let cont = container(&format!("registry.example/products/{}", image));

    assert_eq!(cont.short_image(), image);
}

#[test]
fn image_without_a_path_is_its_own_short_form() {
    assert_eq!(container("busybox:1.36").short_image(), "busybox:1.36");
    assert_eq!(container("busybox:1.36").tag(), Some("1.36"));
}

#[test]
fn readiness_counts_ready_containers_of_all() {
    let mut pod = MyPod::new(
        "p".to_string(),
        "ns".to_string(),
        vec![container("a:1"), container("b:2")],
    );
    pod.ready = 1;

    assert_eq!(pod.readiness(), "1/2");
}

#[test]
fn age_is_measured_from_creation() {
    let mut pod = MyPod::new("p".to_string(), "ns".to_string(), vec![]);
    assert_eq!(pod.age(1_000), None);

    pod.created = Some(1_000);
    assert_eq!(pod.age(1_000 + 3 * 3_600 + 5), Some("3h".to_string()));
    assert_eq!(pod.age(900), Some("0s".to_string()));
    pod.created = Some(i64::MIN);
    assert_eq!(pod.age(i64::MAX), Some(format!("{}d", i64::MAX / 86_400)));
}

#[test]
fn finished_phases_are_success_and_failure() {
    assert!(finished_phase("Succeeded"));
    assert!(finished_phase("Failed"));
    assert!(!finished_phase("Running"));
    assert!(is_calm("Running"));
    assert!(!is_calm("CrashLoopBackOff"));
}

#[test]
fn restarts_add_up_without_overflowing() {
    assert_eq!(total_restarts(&[1, 2, 3]), 6);
    assert_eq!(total_restarts(&[i32::MAX, 1]), i32::MAX);
    assert_eq!(total_restarts(&[]), 0);
}

fn state(waiting: Option<Option<&str>>, terminated: Option<Option<&str>>, ready: bool) -> ContainerState {
    ContainerState {
        waiting: waiting.map(|w| w.map(|r| r.to_string())),
        terminated: terminated.map(|t| t.map(|r| r.to_string())),
        ready,
    }
}

#[test]
fn status_shows_why_the_first_held_up_container_waits() {
    let states = vec![
        state(None, None, true),
        state(Some(None), None, false),
        state(Some(Some("CrashLoopBackOff")), None, false),
        state(Some(Some("ImagePullBackOff")), None, false),
    ];
    let running = Some("Running".to_string());

    assert_eq!(status_reason(&states, &running), Some("CrashLoopBackOff".to_string()));
    assert_eq!(ready_count(&states), 1);
}

#[test]
fn a_stopped_container_speaks_only_while_the_pod_runs() {
    let states = vec![state(None, Some(Some("Completed")), false)];

    assert_eq!(
        status_reason(&states, &Some("Running".to_string())),
        Some("Completed".to_string())
    );
    assert_eq!(status_reason(&states, &Some("Succeeded".to_string())), None);
    assert_eq!(status_reason(&states, &None), None);
    assert_eq!(ready_count(&states), 0);
}
