use giter::context::{get_current_namespace, Cluster, Env, KubeconfigState, NamedContext};

#[test]
fn production_context_is_recognised() {
    assert_eq!(Env::from_context("orchard-prod"), Some(Env::Prod));
}

#[test]
fn staging_context_is_recognised() {
    assert_eq!(Env::from_context("nimbus-staging-1"), Some(Env::Stage));
}

#[test]
fn development_context_is_recognised() {
    assert_eq!(Env::from_context("dev-cluster"), Some(Env::Dev));
}

#[test]
fn context_name_is_matched_ignoring_case() {
    assert_eq!(Env::from_context("ORCHARD-PROD"), Some(Env::Prod));
}

#[test]
fn production_wins_when_several_words_match() {
    // a context deploying prod from a dev jump host is still prod
    assert_eq!(Env::from_context("jump-dev-prod-1"), Some(Env::Prod));
}

#[test]
fn context_naming_no_environment_gets_no_badge() {
    assert_eq!(Env::from_context("minikube"), None);
}

#[test]
fn cluster_takes_its_environment_from_the_context() {
    let cluster = Cluster::from_context(Some("kube-staging".to_string()));
    assert_eq!(cluster.env, Some(Env::Stage));
    assert_eq!(cluster.context, Some("kube-staging".to_string()));
    assert_eq!(Cluster::from_context(None).env, None);
    assert_eq!(Env::Stage.label(), "STAGE");
}

fn context(name: &str, namespace: Option<Option<&str>>) -> NamedContext {
    NamedContext {
        name: name.to_string(),
        namespace: namespace.map(|n| n.map(str::to_string)),
    }
}

#[test]
fn current_namespace_is_read_off_the_current_context() {
    let config = KubeconfigState::Loaded {
        current_context: Some("b".to_string()),
        contexts: vec![context("a", Some(Some("x"))), context("b", Some(Some("y")))],
    };

    assert_eq!(get_current_namespace(&config).unwrap(), "y");
}

#[test]
fn each_missing_piece_is_named() {
    let message = |config: KubeconfigState| get_current_namespace(&config).unwrap_err().details;

    assert_eq!(message(KubeconfigState::Unparsable), "Couldn't parse config");
    assert_eq!(message(KubeconfigState::Missing), "Couldn't unpack config");
    assert_eq!(
        message(KubeconfigState::Loaded { current_context: None, contexts: vec![] }),
        "Not current context specified"
    );
    assert_eq!(
        message(KubeconfigState::Loaded {
            current_context: Some("z".to_string()),
            contexts: vec![context("a", Some(Some("x")))],
        }),
        "Couldn't find proper context"
    );
    assert_eq!(
        message(KubeconfigState::Loaded {
            current_context: Some("a".to_string()),
            contexts: vec![context("a", None)],
        }),
        "Couldn't open proper context"
    );
    assert_eq!(
        message(KubeconfigState::Loaded {
            current_context: Some("a".to_string()),
            contexts: vec![context("a", Some(None))],
        }),
        "Current namespace is not set"
    );
}
