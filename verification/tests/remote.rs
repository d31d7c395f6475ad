use giter::remote::{
    judge, latest_commit, latest_tag, lookup_args, ls_remote, pick_latest_tag, resolve,
    strip_pipeline_id, Failure, GitOutcome, ImageRef, LookupError, Mode, RemoteState, Target,
    Unresolved, Verdict,
};

fn sha(short: &str) -> String {
    format!("{:a<40}", short)
}

fn ls_remote_output(refs: &[(&str, &str)]) -> String {
    refs.iter()
        .map(|(commit, reference)| format!("{}\t{}\n", commit, reference))
        .collect()
}

fn released(refs: &[(&str, &str)]) -> RemoteState {
    RemoteState::Ready(pick_latest_tag(&ls_remote_output(refs)).unwrap())
}

fn at_commit(commit: &str) -> RemoteState {
    RemoteState::Ready(Target {
        commit: commit.to_string(),
        ..Target::default()
    })
}

fn exited(success: bool, stdout: &str, stderr: &str) -> GitOutcome {
    GitOutcome::Exited {
        success,
        stdout: stdout.to_string(),
        stderr: stderr.to_string(),
    }
}

#[test]
fn branch_build_is_read_as_a_commit() {
    let commit = "df811319";

    assert_eq!(
        ImageRef::from_image_tag(&format!("{}-5432284", commit)),
        Some(ImageRef::Commit(commit.to_string()))
    );
}

#[test]
fn release_build_is_read_as_a_tag() {
    let release = "v0.1.3";

    assert_eq!(
        ImageRef::from_image_tag(&format!("{}-5328619", release)),
        Some(ImageRef::Tag(release.to_string()))
    );
}

#[test]
fn prerelease_suffix_survives_the_pipeline_id() {
    let release = "v2.0.0-rc4";

    // only the trailing numeric group is the pipeline id
    assert_eq!(
        ImageRef::from_image_tag(&format!("{}-5041301", release)),
        Some(ImageRef::Tag(release.to_string()))
    );
}

#[test]
fn version_without_a_pipeline_id_is_read_as_a_tag() {
    let version = "1.30.0";

    assert_eq!(
        ImageRef::from_image_tag(version),
        Some(ImageRef::Tag(version.to_string()))
    );
}

#[test]
fn commit_reference_is_labelled_by_its_short_hash() {
    let running = ImageRef::Commit("4f1c0f2c8b3d4e5a".to_string());

    assert_eq!(running.label(), "4f1c0f2c".to_string());
}

#[test]
fn tag_reference_is_labelled_in_full() {
    let release = "v10.2.400-rc1";

    // a version cut in half is not a version
    assert_eq!(ImageRef::Tag(release.to_string()).label(), release.to_string());
}

#[test]
fn commit_matching_the_target_is_in_sync() {
    let short = "bca81e5e";
    let running = ImageRef::Commit(short.to_string());

    assert_eq!(judge(Some(&running), Some(&at_commit(&sha(short)))), Verdict::InSync);
}

#[test]
fn commit_differing_from_the_target_is_behind() {
    let running = ImageRef::Commit("30f43732".to_string());

    assert_eq!(judge(Some(&running), Some(&at_commit(&sha("4db5f21d")))), Verdict::Behind);
}

#[test]
fn commit_is_compared_ignoring_case() {
    let short = "F0F1AAFC";
    let running = ImageRef::Commit(short.to_string());

    assert_eq!(
        judge(Some(&running), Some(&at_commit(&sha(&short.to_lowercase())))),
        Verdict::InSync
    );
}

#[test]
fn newest_tag_is_in_sync() {
    let newest = "v0.2.3";
    let remote = released(&[
        (&sha("11111111"), &format!("refs/tags/{}", newest)),
        (&sha("22222222"), "refs/tags/v0.2.2"),
    ]);

    assert_eq!(judge(Some(&ImageRef::Tag(newest.to_string())), Some(&remote)), Verdict::InSync);
}

#[test]
fn superseded_tag_is_behind() {
    let superseded = "v0.0.30";
    let remote = released(&[
        (&sha("33333333"), "refs/tags/v0.0.37"),
        (&sha("44444444"), &format!("refs/tags/{}", superseded)),
    ]);

    assert_eq!(
        judge(Some(&ImageRef::Tag(superseded.to_string())), Some(&remote)),
        Verdict::Behind
    );
}

#[test]
fn tag_pointing_at_the_reference_commit_is_in_sync() {
    let shared = sha("aabbccdd");
    let remote = released(&[(&shared, "refs/tags/v2.1.0"), (&shared, "refs/tags/v2.0.9")]);

    // an older tag name on the very commit the reference names is not behind
    assert_eq!(
        judge(Some(&ImageRef::Tag("v2.0.9".to_string())), Some(&remote)),
        Verdict::InSync
    );
}

#[test]
fn version_absent_from_the_repository_is_a_sidecar() {
    let remote = released(&[(&sha("55555555"), "refs/tags/v0.1.1")]);
    let sidecar = ImageRef::Tag("1.26.2".to_string());

    // a sidecar version must not be judged against the application's releases
    assert_eq!(judge(Some(&sidecar), Some(&remote)), Verdict::Unknown(Unresolved::Sidecar));
}

#[test]
fn release_in_commit_mode_points_at_the_other_mode() {
    let running = ImageRef::Tag("v0.1.20".to_string());

    // an application running a release is not a foreign image
    assert_eq!(
        judge(Some(&running), Some(&at_commit(&sha("fa6e1e57")))),
        Verdict::Unknown(Unresolved::WrongMode)
    );
}

#[test]
fn container_without_a_reference_is_a_digest() {
    assert_eq!(
        judge(None, Some(&at_commit(&sha("ff8ef895")))),
        Verdict::Unknown(Unresolved::Digest)
    );
}

#[test]
fn namespace_missing_from_the_config_is_unconfigured() {
    let running = ImageRef::Commit("c3cc3026".to_string());

    assert_eq!(
        judge(Some(&running), Some(&RemoteState::Unconfigured)),
        Verdict::Unknown(Unresolved::NoConfig)
    );
}

#[test]
fn repository_without_tags_is_reported_as_such() {
    let running = ImageRef::Tag("v3.1.0".to_string());

    assert_eq!(
        judge(Some(&running), Some(&RemoteState::NoTags)),
        Verdict::Unknown(Unresolved::NoTags)
    );
}

#[test]
fn lookup_not_started_yet_is_resolving() {
    let running = ImageRef::Commit("2a4fd3af".to_string());

    assert_eq!(judge(Some(&running), None), Verdict::Resolving);
}

#[test]
fn pending_lookup_is_resolving() {
    let running = ImageRef::Commit("7bd51e08".to_string());

    assert_eq!(judge(Some(&running), Some(&RemoteState::Loading)), Verdict::Resolving);
}

#[test]
fn broken_lookup_is_a_git_failure() {
    let running = ImageRef::Commit("f9860c4b".to_string());
    let failure = RemoteState::Failed("repository not found".to_string());

    assert_eq!(judge(Some(&running), Some(&failure)), Verdict::Failed(Failure::Git));
}

#[test]
fn newest_release_is_named_after_its_tag() {
    let newest = "v1.1.1";
    let target = pick_latest_tag(&ls_remote_output(&[
        (&sha("66666666"), &format!("refs/tags/{}", newest)),
        (&sha("77777777"), "refs/tags/v1.0.9"),
    ]))
    .unwrap();

    assert_eq!(target.name, Some(newest.to_string()));
}

#[test]
fn annotated_tag_resolves_to_the_commit_it_points_at() {
    let pointed_at = sha("347a96bc");
    let target = pick_latest_tag(&ls_remote_output(&[
        (&pointed_at, "refs/tags/v0.2.2^{}"),
        (&sha("0f835c2a"), "refs/tags/v0.2.2"),
    ]))
    .unwrap();

    // the peeled ref names the commit, the other one names the tag object
    assert_eq!(target.commit, pointed_at);
}

#[test]
fn lightweight_tag_resolves_to_its_own_sha() {
    let newest = sha("65858222");
    let target = pick_latest_tag(&ls_remote_output(&[
        (&newest, "refs/tags/v0.2.0"),
        (&sha("7d96e0d5"), "refs/tags/v0.1.100^{}"),
    ]))
    .unwrap();

    assert_eq!(target.commit, newest);
}

#[test]
fn superseded_tag_resolves_to_its_own_commit() {
    let superseded_at = sha("b5873ad6");
    let target = pick_latest_tag(&ls_remote_output(&[
        (&sha("fb262f28"), "refs/tags/v0.2.1"),
        (&superseded_at, "refs/tags/v0.2.0"),
    ]))
    .unwrap();

    assert_eq!(target.commit_of(&ImageRef::Tag("v0.2.0".to_string())), Some(superseded_at));
}

#[test]
fn tag_the_repository_does_not_have_resolves_to_nothing() {
    let target =
        pick_latest_tag(&ls_remote_output(&[(&sha("88888888"), "refs/tags/v0.1.16")])).unwrap();

    assert_eq!(target.commit_of(&ImageRef::Tag("v9.9.9".to_string())), None);
}

#[test]
fn commit_reference_resolves_to_itself() {
    let short = "99f6dabd";
    let target =
        pick_latest_tag(&ls_remote_output(&[(&sha("aaaaaaa1"), "refs/tags/v0.1.7")])).unwrap();

    assert_eq!(
        target.commit_of(&ImageRef::Commit(short.to_string())),
        Some(short.to_string())
    );
}

#[test]
fn repository_without_tags_reports_that_it_has_none() {
    assert_eq!(pick_latest_tag(&String::new()), Err(LookupError::NoTags));
}

#[test]
fn tagged_target_is_labelled_with_its_tag() {
    let release = "v0.1.33";
    let short = "bd812acb";
    let target = Target {
        commit: sha(short),
        name: Some(release.to_string()),
        ..Target::default()
    };

    assert_eq!(target.label(), format!("{} {}", release, short));
}

#[test]
fn untagged_target_is_labelled_as_head() {
    let short = "15114a79";
    let target = Target {
        commit: sha(short),
        ..Target::default()
    };

    assert_eq!(target.label(), format!("HEAD {}", short));
}

#[test]
fn one_lagging_part_drags_the_whole_down() {
    let verdicts = [Verdict::InSync, Verdict::Behind, Verdict::InSync];

    // an up to date part must not vouch for a lagging one next to it
    assert_eq!(Verdict::of_parts(&verdicts), Verdict::Behind);
}

#[test]
fn whole_made_of_up_to_date_parts_is_in_sync() {
    let verdicts = [Verdict::InSync, Verdict::InSync];

    assert_eq!(Verdict::of_parts(&verdicts), Verdict::InSync);
}

#[test]
fn part_nobody_can_judge_is_left_out() {
    let verdicts = [Verdict::InSync, Verdict::Unknown(Unresolved::Sidecar)];

    // a sidecar, or somebody else's pod in the namespace, says nothing
    assert_eq!(Verdict::of_parts(&verdicts), Verdict::InSync);
}

#[test]
fn lagging_part_outweighs_a_broken_lookup() {
    let verdicts = [Verdict::Failed(Failure::Git), Verdict::Behind];

    // something to fix outranks something that could not be checked
    assert_eq!(Verdict::of_parts(&verdicts), Verdict::Behind);
}

#[test]
fn whole_with_nothing_judgeable_takes_on_the_reason() {
    let verdicts = [
        Verdict::Unknown(Unresolved::Digest),
        Verdict::Unknown(Unresolved::Digest),
    ];

    assert_eq!(Verdict::of_parts(&verdicts), Verdict::Unknown(Unresolved::Digest));
}

#[test]
fn whole_without_parts_has_nothing_to_compare() {
    assert_eq!(Verdict::of_parts(&[]), Verdict::Unknown(Unresolved::Empty));
}

#[test]
fn lagging_row_sorts_above_an_up_to_date_one() {
    // the table puts what needs acting on first
    assert!(Verdict::Behind.severity() < Verdict::InSync.severity());
}

#[test]
fn each_state_has_its_own_glyph() {
    let glyphs = [
        Verdict::Behind,
        Verdict::Failed(Failure::Git),
        Verdict::Resolving,
        Verdict::Unknown(Unresolved::Digest),
        Verdict::InSync,
    ]
    .map(Verdict::glyph);

    let mut unique = glyphs.to_vec();
    unique.sort_unstable();
    unique.dedup();

    // a glyph shared by two states would carry no information
    assert_eq!(unique.len(), glyphs.len());
}

#[test]
fn every_reason_for_grey_has_its_own_code() {
    let codes = [
        Unresolved::Sidecar,
        Unresolved::Digest,
        Unresolved::NoConfig,
        Unresolved::NoTags,
        Unresolved::WrongMode,
        Unresolved::Finished,
        Unresolved::Empty,
    ]
    .map(|reason| Verdict::Unknown(reason).code());

    let mut unique = codes.to_vec();
    unique.sort_unstable();
    unique.dedup();

    assert_eq!(unique.len(), codes.len());
}

#[test]
fn digest_pinned_or_empty_tag_carries_no_reference() {
    assert_eq!(ImageRef::from_image_tag(""), None);
    assert_eq!(ImageRef::from_image_tag("-123"), Some(ImageRef::Tag("-123".to_string())));
    assert_eq!(strip_pipeline_id("v1-"), "v1-");
    assert_eq!(strip_pipeline_id("v1-2a"), "v1-2a");
    assert_eq!(strip_pipeline_id("abc-12"), "abc");
}

#[test]
fn hash_length_bounds_are_inclusive() {
    assert_eq!(ImageRef::from_image_tag("abcdef1-1"), Some(ImageRef::Commit("abcdef1".to_string())));
    assert_eq!(ImageRef::from_image_tag("abcdef-1"), Some(ImageRef::Tag("abcdef".to_string())));
    let forty = "a".repeat(40);
    let forty_one = "a".repeat(41);
    assert_eq!(ImageRef::from_image_tag(&forty), Some(ImageRef::Commit(forty.clone())));
    assert_eq!(ImageRef::from_image_tag(&forty_one), Some(ImageRef::Tag(forty_one.clone())));
}

#[test]
fn peeled_entry_after_the_tag_object_still_wins() {
    let target = pick_latest_tag(&ls_remote_output(&[
        (&sha("0f835c2a"), "refs/tags/v0.2.2"),
        (&sha("347a96bc"), "refs/tags/v0.2.2^{}"),
    ]))
    .unwrap();

    assert_eq!(target.commit, sha("347a96bc"));
    assert_eq!(target.name, Some("v0.2.2".to_string()));
}

#[test]
fn tag_listing_without_the_newest_commit_is_a_git_failure() {
    let out = ls_remote_output(&[(&sha("11111111"), "refs/heads/main")]);

    assert_eq!(
        pick_latest_tag(&out),
        Err(LookupError::Git("cannot resolve the latest tag".to_string()))
    );
}

#[test]
fn lines_with_carriage_returns_and_padding_are_read() {
    let out = format!("  {} \t refs/tags/v1.0.0 \r\n", sha("12345678"));
    let target = pick_latest_tag(&out).unwrap();

    assert_eq!(target.name, Some("v1.0.0".to_string()));
    assert_eq!(target.commit, sha("12345678"));
}

#[test]
fn failed_git_reports_its_first_complaint() {
    let outcome = exited(false, "", "\n   \n  fatal: repository not found  \nmore\n");

    assert_eq!(
        ls_remote(&outcome),
        Err(LookupError::Git("fatal: repository not found".to_string()))
    );
}

#[test]
fn silent_failure_is_still_reported() {
    assert_eq!(
        ls_remote(&exited(false, "", "  \n")),
        Err(LookupError::Git("git ls-remote failed".to_string()))
    );
}

#[test]
fn git_that_cannot_start_says_why() {
    let outcome = GitOutcome::Unavailable("No such file or directory".to_string());

    assert_eq!(
        latest_commit(&outcome),
        Err(LookupError::Git("cannot run git: No such file or directory".to_string()))
    );
}

#[test]
fn head_is_the_first_word_of_the_answer() {
    let outcome = exited(true, &format!("{}\tHEAD\n", sha("abc")), "");
    let target = latest_commit(&outcome).unwrap();

    assert_eq!(target.commit, sha("abc"));
    assert_eq!(target.name, None);
}

#[test]
fn empty_answer_has_no_head() {
    assert_eq!(
        latest_commit(&exited(true, " \n", "")),
        Err(LookupError::Git("remote returned no HEAD".to_string()))
    );
}

#[test]
fn tag_mode_asks_for_the_sorted_tag_list() {
    assert_eq!(
        lookup_args(Mode::Tag, "https://example/x"),
        vec!["ls-remote", "--tags", "--sort=-v:refname", "https://example/x"]
    );
    assert_eq!(
        lookup_args(Mode::Commit, "https://example/x"),
        vec!["ls-remote", "https://example/x", "HEAD"]
    );
}

#[test]
fn resolve_reads_the_answer_the_mode_asked_for() {
    let out = ls_remote_output(&[(&sha("9999"), "refs/tags/v9")]);
    let tagged = resolve(Mode::Tag, &exited(true, &out, "")).unwrap();
    assert_eq!(tagged.name, Some("v9".to_string()));

    assert_eq!(latest_tag(&exited(true, "", "")), Err(LookupError::NoTags));
    let head = resolve(Mode::Commit, &exited(true, &out, "")).unwrap();
    assert_eq!(head.commit, sha("9999"));
}

#[test]
fn mode_toggles_back_and_forth() {
    assert_eq!(Mode::Commit.toggled(), Mode::Tag);
    assert_eq!(Mode::Commit.toggled().toggled(), Mode::Commit);
    assert_eq!(Mode::Tag.label(), "tag");
    assert_eq!(Mode::default(), Mode::Commit);
}

#[test]
fn whole_takes_the_first_of_its_worst_judged_parts() {
    assert_eq!(
        Verdict::of_parts(&[Verdict::Failed(Failure::Git), Verdict::Behind]),
        Verdict::Behind
    );
    assert_eq!(
        Verdict::of_parts(&[Verdict::InSync, Verdict::Behind, Verdict::InSync]),
        Verdict::Behind
    );
    assert_eq!(
        Verdict::of_parts(&[
            Verdict::InSync,
            Verdict::Failed(Failure::Kube),
            Verdict::Failed(Failure::Git),
        ]),
        Verdict::Failed(Failure::Kube)
    );
    assert_eq!(
        Verdict::of_parts(&[Verdict::Unknown(Unresolved::NoTags), Verdict::Resolving]),
        Verdict::Resolving
    );
}
