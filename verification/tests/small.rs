use giter::browser::commit_url;
use giter::errors::MsgError;
use giter::storage::common::{Repo, Storage};
use giter::storage::json_storage::JsonStorage;

#[test]
fn commit_page_follows_the_gitlab_layout() {
    assert_eq!(
        commit_url("https://git.example.com/orchard-gateway", "4f1c0f2c"),
        "https://git.example.com/orchard-gateway/-/commit/4f1c0f2c"
    );
}

#[test]
fn message_error_keeps_its_message() {
    assert_eq!(MsgError::new("Cannot list pods").details, "Cannot list pods");
}

fn repo(name: &str, url: &str) -> Repo {
    Repo { name: name.to_string(), url: url.to_string() }
}

#[test]
fn repository_is_found_by_its_namespace() {
    let storage = JsonStorage::from_repos(vec![
        repo("a", "https://x/a"),
        repo("b", "https://x/b"),
        repo("b", "https://x/b2"),
    ]);

    assert_eq!(storage.get_repo_by_name("b").map(|r| r.url.clone()), Some("https://x/b".to_string()));
    assert!(storage.get_repo_by_name("c").is_none());
    assert_eq!(storage.list_repos().len(), 3);
}
