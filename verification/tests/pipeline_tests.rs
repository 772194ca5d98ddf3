//! Tests for the acquisition pipeline: index merging, hash policy, build
//! isolation, requirement aggregation, fetch planning, the in-flight
//! registry, materialization, packing, and reporting.

use std::io::Read;

use uv::archive::{archive_plan, pack_archive, ArchiveEntry, DirEntry};
use uv::build_isolation::{
    select_build_isolation, BuildIsolationMode, BuildIsolationRequest, EnvironmentRef,
};
use uv::hash_policy::{HashCheckingMode, HashDeclaration, HashPolicyError, HashStrategy};
use uv::index_merge::{
    combine_index_locations, url_norm_eq, IndexKind, IndexLocation, IndexOrigin,
};
use uv::materialize::{
    materialize_build, materialize_download, ArtifactContent, MaterializeInput, MaterializedResult,
    Outcome,
};
use uv::pipeline::{configure_run, finish_download_run, PipelineError};
use uv::prepare::{
    artifact_step, collect_prepared, plan_fetches, startable_fetches, verify_artifact,
    AcquireOutcome, ArtifactEvent,
    ArtifactState, InFlightRegistry, OriginKind, PrepareError, PreparedArtifact, PrepareSlot,
};
use uv::pypi::{pypi_request_url, validate_lookup_name, PyPiSearchError};
use uv::report::{build_summary, download_summary, item_line, outcome_count, report_lines};
use uv::requirements::{
    aggregate_requirements, collect_sources, InputError, RequirementEntry, RequirementSource,
};
use uv::resolution::{Resolution, ResolvedDistribution, SourceKind};
use uv::strutil::u64_to_dec;

fn entry(name: &str, hashes: Vec<&str>, applies: bool) -> HashDeclaration {
    HashDeclaration {
        name: name.to_string(),
        applies,
        hashes: hashes.into_iter().map(|h| h.to_string()).collect(),
    }
}

fn req(name: &str, specifier: &str, hashes: Vec<&str>) -> RequirementEntry {
    RequirementEntry {
        name: name.to_string(),
        specifier: specifier.to_string(),
        hashes: hashes.into_iter().map(|h| h.to_string()).collect(),
        marker_applies: true,
    }
}

fn loc(url: &str, kind: IndexKind, origin: IndexOrigin) -> IndexLocation {
    IndexLocation {
        url: url.to_string(),
        kind,
        origin,
    }
}

fn dist(name: &str, version: &str, kind: SourceKind) -> ResolvedDistribution {
    ResolvedDistribution {
        name: name.to_string(),
        version: version.to_string(),
        source_kind: kind,
    }
}

fn wheel_dir_input(filename: &str, file: (&str, &[u8])) -> MaterializeInput {
    MaterializeInput {
        filename: filename.to_string(),
        content: ArtifactContent::UnpackedDirectory(vec![
            DirEntry {
                path: String::new(),
                is_dir: true,
                data: Vec::new(),
            },
            DirEntry {
                path: file.0.to_string(),
                is_dir: false,
                data: file.1.to_vec(),
            },
        ]),
    }
}

#[test]
fn url_normalization_ignores_trailing_slashes() {
    assert!(url_norm_eq("https://pypi.org/simple/", "https://pypi.org/simple"));
    assert!(!url_norm_eq("https://pypi.org/simple", "https://example.org/simple"));
}

#[test]
fn index_merge_dedups_and_orders() {
    let base = vec![
        loc("https://config.example/simple", IndexKind::Registry, IndexOrigin::Config),
        loc("https://cli.example/simple", IndexKind::Registry, IndexOrigin::Cli),
    ];
    let default_index = Some(loc(
        "https://default.example/simple",
        IndexKind::Registry,
        IndexOrigin::RequirementsFile,
    ));
    let extras = vec![
        loc("https://cli.example/simple/", IndexKind::Registry, IndexOrigin::RequirementsFile),
        loc("https://extra.example/simple", IndexKind::Registry, IndexOrigin::RequirementsFile),
    ];
    let find_links = vec![loc(
        "https://links.example/flat",
        IndexKind::FindLinks,
        IndexOrigin::RequirementsFile,
    )];
    let merged = combine_index_locations(&base, default_index, &extras, &find_links, false);

    let urls: Vec<&str> = merged.iter().map(|e| e.url.as_str()).collect();
    // The duplicate of the command-line index collapsed to its first
    // occurrence, which kept the command-line origin and so sorts first.
    assert_eq!(
        urls,
        vec![
            "https://cli.example/simple",
            "https://default.example/simple",
            "https://extra.example/simple",
            "https://links.example/flat",
            "https://config.example/simple",
        ]
    );
    assert_eq!(merged[0].origin, IndexOrigin::Cli);
    assert_eq!(merged[4].origin, IndexOrigin::Config);
}

#[test]
fn index_merge_no_index_keeps_find_links_only() {
    let base = vec![
        loc("https://cli.example/simple", IndexKind::Registry, IndexOrigin::Cli),
    ];
    let find_links = vec![loc(
        "https://links.example/flat",
        IndexKind::FindLinks,
        IndexOrigin::RequirementsFile,
    )];
    let merged = combine_index_locations(&base, None, &Vec::new(), &find_links, true);
    assert_eq!(merged.len(), 1);
    assert_eq!(merged[0].kind, IndexKind::FindLinks);
    assert_eq!(merged[0].url, "https://links.example/flat");
}

#[test]
fn hash_policy_require_rejects_missing_hashes() {
    // Under `Require`, a requirement lacking declared hashes fails before
    // any network or build work begins.
    let reqs = vec![entry("iniconfig", vec![], true)];
    let r = HashStrategy::from_requirements(&reqs, &Vec::new(), HashCheckingMode::Require);
    match r {
        Err(HashPolicyError::MissingHashes(name)) => assert_eq!(name, "iniconfig"),
        _ => panic!("expected a missing-hashes rejection"),
    }
}

#[test]
fn hash_policy_verify_accepts_missing_hashes() {
    let reqs = vec![entry("iniconfig", vec![], true)];
    let r = HashStrategy::from_requirements(&reqs, &Vec::new(), HashCheckingMode::Verify);
    assert!(r.is_ok());
    // A package without declarations passes under `Verify`.
    let strategy = r.unwrap();
    assert!(strategy.permits("unrelated", Some(&"sha256:aa".to_string())));
}

#[test]
fn hash_policy_marker_excludes_declarations() {
    // A declaration whose marker does not apply is excluded before the map
    // is built, so `Require` does not trip over it.
    let reqs = vec![entry("win-only", vec![], false), entry("real", vec!["sha256:aa"], true)];
    let r = HashStrategy::from_requirements(&reqs, &Vec::new(), HashCheckingMode::Require);
    assert!(r.is_ok());
}

#[test]
fn hash_policy_mismatch_rejected() {
    let reqs = vec![entry("iniconfig", vec!["sha256:aa", "sha256:bb"], true)];
    let strategy =
        HashStrategy::from_requirements(&reqs, &Vec::new(), HashCheckingMode::Verify).unwrap();
    assert!(strategy.permits("iniconfig", Some(&"sha256:bb".to_string())));
    assert!(!strategy.permits("iniconfig", Some(&"sha256:cc".to_string())));
    assert!(!strategy.permits("iniconfig", None));
}

#[test]
fn hash_policy_require_rejects_undeclared_package() {
    let reqs = vec![entry("iniconfig", vec!["sha256:aa"], true)];
    let strategy =
        HashStrategy::from_requirements(&reqs, &Vec::new(), HashCheckingMode::Require).unwrap();
    assert!(!strategy.permits("other", Some(&"sha256:aa".to_string())));
}

#[test]
fn build_constraints_never_require() {
    // The intentional relaxation: build constraints are checked under
    // `Verify` even when the run requires hashes, so absence never fails —
    // neither an undeclared package nor a declaration naming no hash.
    let bare = vec![entry("setuptools", vec![], true)];
    let strategy = HashStrategy::for_build_constraints(&bare, true);
    assert!(strategy.permits("setuptools", Some(&"sha256:anything".to_string())));
    assert!(strategy.permits("setuptools", None));
    assert!(strategy.permits("undeclared", Some(&"sha256:aa".to_string())));
    // A declared hash is still verified.
    let pinned = vec![entry("wheel", vec!["sha256:aa"], true)];
    let strategy = HashStrategy::for_build_constraints(&pinned, true);
    assert!(strategy.permits("wheel", Some(&"sha256:aa".to_string())));
    assert!(!strategy.permits("wheel", Some(&"sha256:zz".to_string())));
    let off = HashStrategy::for_build_constraints(&bare, false);
    assert!(off.permits("setuptools", None));
}

#[test]
fn verify_never_rejects_on_absence() {
    // Under `Verify` a declaration that names no hash is an absence, not a
    // mismatch, so the package passes.
    let reqs = vec![entry("iniconfig", vec![], true)];
    let strategy =
        HashStrategy::from_requirements(&reqs, &Vec::new(), HashCheckingMode::Verify).unwrap();
    assert!(strategy.permits("iniconfig", Some(&"sha256:aa".to_string())));
    assert!(strategy.permits("iniconfig", None));
}

#[test]
fn build_isolation_modes() {
    let m = select_build_isolation(BuildIsolationRequest::Isolate, None).unwrap();
    assert!(matches!(m, BuildIsolationMode::Isolated));

    let env = EnvironmentRef { root: "/venv".to_string() };
    let m = select_build_isolation(BuildIsolationRequest::Shared, Some(env)).unwrap();
    match m {
        BuildIsolationMode::SharedWithEnvironment(e) => assert_eq!(e.root, "/venv"),
        _ => panic!("expected the shared mode"),
    }

    let err = select_build_isolation(BuildIsolationRequest::Shared, None);
    assert!(err.is_err());

    let env = EnvironmentRef { root: "/venv".to_string() };
    let m = select_build_isolation(
        BuildIsolationRequest::SharedPackage(vec!["torch".to_string()]),
        Some(env),
    )
    .unwrap();
    match m {
        BuildIsolationMode::SharedForPackages(e, names) => {
            assert_eq!(e.root, "/venv");
            assert_eq!(names, vec!["torch".to_string()]);
        },
        _ => panic!("expected the shared-for-packages mode"),
    }
}

#[test]
fn aggregation_appends_workspace_entries() {
    let agg = aggregate_requirements(
        vec![req("iniconfig", "iniconfig==2.0.0", vec![])],
        vec![req("tomli", "tomli<3", vec![])],
        vec![req("tomli", "tomli>=2", vec![])],
        vec![],
        vec![req("flask", "flask==3.0.0", vec![])],
        vec![],
        vec![req("setuptools", "setuptools>=60", vec![])],
    );
    assert_eq!(agg.requirements.len(), 1);
    assert_eq!(agg.constraints.len(), 2);
    assert_eq!(agg.constraints[0].specifier, "tomli<3");
    assert_eq!(agg.constraints[1].specifier, "tomli>=2");
    assert_eq!(agg.overrides.len(), 1);
    assert_eq!(agg.build_constraints.len(), 1);
}

#[test]
fn missing_requirements_source_is_fatal() {
    let sources = vec![
        RequirementSource {
            path: "requirements.txt".to_string(),
            entries: Some(vec![req("iniconfig", "iniconfig==2.0.0", vec![])]),
        },
        RequirementSource {
            path: "missing.txt".to_string(),
            entries: None,
        },
    ];
    match collect_sources(sources) {
        Err(InputError::MissingSource(p)) => assert_eq!(p, "missing.txt"),
        _ => panic!("expected the missing source to be fatal"),
    }

    let sources = vec![RequirementSource {
        path: "requirements.txt".to_string(),
        entries: Some(vec![req("iniconfig", "iniconfig==2.0.0", vec![])]),
    }];
    let entries = collect_sources(sources).unwrap();
    assert_eq!(entries.len(), 1);
    assert_eq!(entries[0].name, "iniconfig");
}

#[test]
fn plan_skips_installed_and_dedups() {
    let resolution = Resolution {
        distributions: vec![
            dist("iniconfig", "2.0.0", SourceKind::Installable),
            dist("tomli", "2.0.1", SourceKind::AlreadyInstalled),
            dist("iniconfig", "2.0.0", SourceKind::Installable),
            dist("flask", "3.0.0", SourceKind::Installable),
        ],
    };
    let installable = resolution.installable_distributions();
    assert_eq!(installable.len(), 3);
    let plan = plan_fetches(&resolution.distributions);
    let names: Vec<&str> = plan.iter().map(|d| d.name.as_str()).collect();
    assert_eq!(names, vec!["iniconfig", "flask"]);
}

#[test]
fn registry_owner_then_waiters() {
    let mut registry = InFlightRegistry::new();
    let name = "iniconfig".to_string();
    let version = "2.0.0".to_string();
    assert_eq!(registry.acquire(&name, &version), AcquireOutcome::Owner);
    assert_eq!(registry.acquire(&name, &version), AcquireOutcome::Waiter);

    let other = "tomli".to_string();
    let other_version = "2.0.1".to_string();
    assert_eq!(registry.acquire(&other, &other_version), AcquireOutcome::Owner);

    // One artifact fails; its sibling's slot is untouched and still running.
    registry.complete(
        &name,
        &version,
        Err(PrepareError {
            distribution: name.clone(),
            message: "hash check failed".to_string(),
        }),
    );
    match registry.result_of(&name, &version) {
        Some(PrepareSlot::Settled(Err(e))) => assert_eq!(e.distribution, "iniconfig"),
        _ => panic!("expected the settled failure"),
    }
    match registry.result_of(&other, &other_version) {
        Some(PrepareSlot::InFlight) => {},
        _ => panic!("expected the sibling still in flight"),
    }
}

#[test]
fn first_error_wins() {
    let ok = PreparedArtifact {
        filename: "iniconfig-2.0.0-py3-none-any.whl".to_string(),
        cache_location: "/cache/iniconfig".to_string(),
        origin_kind: OriginKind::UnpackedWheelDirectory,
    };
    let outcomes = vec![
        Ok(ok),
        Err(PrepareError {
            distribution: "tomli".to_string(),
            message: "first".to_string(),
        }),
        Err(PrepareError {
            distribution: "flask".to_string(),
            message: "second".to_string(),
        }),
    ];
    match collect_prepared(outcomes) {
        Err(e) => assert_eq!(e.distribution, "tomli"),
        Ok(_) => panic!("expected the first error"),
    }
}

#[test]
fn hash_gate_attributes_failures() {
    let reqs = vec![entry("iniconfig", vec!["sha256:aa"], true)];
    let strategy =
        HashStrategy::from_requirements(&reqs, &Vec::new(), HashCheckingMode::Verify).unwrap();
    let artifact = PreparedArtifact {
        filename: "iniconfig-2.0.0-py3-none-any.whl".to_string(),
        cache_location: "/cache/iniconfig".to_string(),
        origin_kind: OriginKind::WheelFile,
    };
    let digest = "sha256:zz".to_string();
    let r = verify_artifact(&strategy, &"iniconfig".to_string(), Some(&digest), artifact);
    match r {
        Err(e) => assert_eq!(e.distribution, "iniconfig"),
        Ok(_) => panic!("expected the mismatched hash to fail preparation"),
    }
}

#[test]
fn artifact_state_machine_moves_forward_only() {
    assert_eq!(
        artifact_step(ArtifactState::Resolved, ArtifactEvent::StartPrepare),
        Some(ArtifactState::Preparing)
    );
    assert_eq!(
        artifact_step(ArtifactState::Preparing, ArtifactEvent::FailPrepare),
        Some(ArtifactState::Failed)
    );
    assert_eq!(artifact_step(ArtifactState::Failed, ArtifactEvent::StartPrepare), None);
    assert_eq!(
        artifact_step(ArtifactState::Materialized, ArtifactEvent::StartPrepare),
        None
    );
    assert_eq!(
        artifact_step(ArtifactState::Prepared, ArtifactEvent::StartMaterialize),
        Some(ArtifactState::Materializing)
    );
}

#[test]
fn download_single_package_then_skip() {
    // Requesting one package against an empty output directory yields one
    // wheel, one downloaded line, and the singular summary; repeating the
    // request skips it and counts zero.
    let inputs = vec![wheel_dir_input(
        "iniconfig-2.0.0-py3-none-any.whl",
        ("iniconfig/__init__.py", b"def main():\n    pass\n"),
    )];
    let existing: Vec<String> = Vec::new();
    let (results, actions) = materialize_download(&inputs, &existing).unwrap();
    assert_eq!(results.len(), 1);
    assert_eq!(results[0].filename, "iniconfig-2.0.0-py3-none-any.whl");
    assert_eq!(results[0].outcome, Outcome::Downloaded);
    assert_eq!(actions.len(), 1);
    assert!(!actions[0].bytes.is_empty());
    assert_eq!(&actions[0].bytes[0..4], b"PK\x03\x04");

    let lines = report_lines(&results);
    assert_eq!(lines, vec!["Downloaded iniconfig-2.0.0-py3-none-any.whl".to_string()]);
    let count = outcome_count(&results, Outcome::Downloaded) as u64;
    assert_eq!(download_summary(count, "0.42s"), "Downloaded 1 package in 0.42s");

    // Second run: the file now exists.
    let existing: Vec<String> = vec!["iniconfig-2.0.0-py3-none-any.whl".to_string()];
    let (results, actions) = materialize_download(&inputs, &existing).unwrap();
    assert_eq!(results[0].outcome, Outcome::SkippedExisting);
    assert!(actions.is_empty());
    let lines = report_lines(&results);
    assert_eq!(
        lines,
        vec!["Skipping iniconfig-2.0.0-py3-none-any.whl (already exists)".to_string()]
    );
    let count = outcome_count(&results, Outcome::Downloaded) as u64;
    assert_eq!(count, 0);
    assert_eq!(download_summary(count, "0.01s"), "Downloaded 0 packages in 0.01s");
}

#[test]
fn download_reports_sorted_whatever_the_order() {
    // Two preparation orders, one report: the filename list is sorted.
    let a = wheel_dir_input("tomli-2.0.1-py3-none-any.whl", ("tomli/__init__.py", b"t"));
    let b = wheel_dir_input("iniconfig-2.0.0-py3-none-any.whl", ("iniconfig/__init__.py", b"i"));
    let existing: Vec<String> = Vec::new();

    let (r1, _) = materialize_download(&vec![a, b], &existing).unwrap();
    let names1: Vec<&str> = r1.iter().map(|m| m.filename.as_str()).collect();
    assert_eq!(
        names1,
        vec!["iniconfig-2.0.0-py3-none-any.whl", "tomli-2.0.1-py3-none-any.whl"]
    );

    let a = wheel_dir_input("tomli-2.0.1-py3-none-any.whl", ("tomli/__init__.py", b"t"));
    let b = wheel_dir_input("iniconfig-2.0.0-py3-none-any.whl", ("iniconfig/__init__.py", b"i"));
    let (r2, _) = materialize_download(&vec![b, a], &existing).unwrap();
    let names2: Vec<&str> = r2.iter().map(|m| m.filename.as_str()).collect();
    assert_eq!(names1, names2);
}

#[test]
fn wheel_mode_builds_two_archives() {
    // Two packages in wheel mode: two built archives, filenames listed in
    // sorted order, and the plural summary.
    let a = wheel_dir_input("tomli-2.0.1-py3-none-any.whl", ("tomli/__init__.py", b"t"));
    let b = wheel_dir_input("iniconfig-2.0.0-py3-none-any.whl", ("iniconfig/__init__.py", b"i"));
    let (results, actions) = materialize_build(&vec![a, b]).unwrap();
    assert_eq!(results.len(), 2);
    assert_eq!(results[0].filename, "iniconfig-2.0.0-py3-none-any.whl");
    assert_eq!(results[1].filename, "tomli-2.0.1-py3-none-any.whl");
    assert!(results.iter().all(|m| m.outcome == Outcome::Built));
    assert_eq!(actions.len(), 2);

    let count = outcome_count(&results, Outcome::Built) as u64;
    assert_eq!(
        build_summary(count, "1.20s"),
        "Successfully built 2 wheels in 1.20s"
    );
    let lines = report_lines(&results);
    assert_eq!(lines[0], " - iniconfig-2.0.0-py3-none-any.whl");
    assert_eq!(lines[1], " - tomli-2.0.1-py3-none-any.whl");
}

#[test]
fn build_mode_overwrites_existing() {
    // Build mode has no skip check; download mode does.
    let a = wheel_dir_input("iniconfig-2.0.0-py3-none-any.whl", ("m.py", b"x"));
    let (results, actions) = materialize_build(&vec![a]).unwrap();
    assert_eq!(results[0].outcome, Outcome::Built);
    assert_eq!(actions.len(), 1);
}

#[test]
fn packed_archive_round_trips() {
    // Unpack an archive the materializer produced and re-pack it with the
    // same rule: entry names come back byte-identical, and the root entry is
    // absent.
    let entries = vec![
        DirEntry { path: String::new(), is_dir: true, data: Vec::new() },
        DirEntry { path: "pkg".to_string(), is_dir: true, data: Vec::new() },
        DirEntry { path: "pkg/empty".to_string(), is_dir: true, data: Vec::new() },
        DirEntry {
            path: "pkg/__init__.py".to_string(),
            is_dir: false,
            data: b"print('hi')\n".to_vec(),
        },
    ];
    let plan = archive_plan(&entries);
    let names: Vec<&str> = plan.iter().map(|e| e.name.as_str()).collect();
    assert_eq!(names, vec!["pkg/", "pkg/empty/", "pkg/__init__.py"]);

    let bytes = pack_archive(&plan, Some(0o644)).unwrap();
    let mut archive = zip::ZipArchive::new(std::io::Cursor::new(bytes)).unwrap();

    // Recover the entries from the real archive.
    let mut unpacked: Vec<DirEntry> = Vec::new();
    for i in 0..archive.len() {
        let mut f = archive.by_index(i).unwrap();
        let name = f.name().to_string();
        if name.ends_with('/') {
            unpacked.push(DirEntry {
                path: name[..name.len() - 1].to_string(),
                is_dir: true,
                data: Vec::new(),
            });
        } else {
            let mut data = Vec::new();
            f.read_to_end(&mut data).unwrap();
            unpacked.push(DirEntry { path: name, is_dir: false, data });
        }
    }

    // Re-pack with the same rule: identical entry names and kinds.
    let replay: Vec<ArchiveEntry> = archive_plan(&unpacked);
    let replay_names: Vec<&str> = replay.iter().map(|e| e.name.as_str()).collect();
    assert_eq!(replay_names, names);
    for (a, b) in plan.iter().zip(replay.iter()) {
        assert_eq!(a.is_dir, b.is_dir);
        assert_eq!(a.data, b.data);
    }
}

#[test]
fn packing_is_deterministic() {
    let entries = vec![DirEntry {
        path: "pkg/data.txt".to_string(),
        is_dir: false,
        data: b"same bytes".to_vec(),
    }];
    let one = pack_archive(&archive_plan(&entries), None).unwrap();
    let two = pack_archive(&archive_plan(&entries), None).unwrap();
    assert_eq!(one, two);
}

#[test]
fn wheel_file_copied_verbatim() {
    let bytes = b"PK\x03\x04not really".to_vec();
    let inputs = vec![MaterializeInput {
        filename: "iniconfig-2.0.0-py3-none-any.whl".to_string(),
        content: ArtifactContent::WheelFile(bytes.clone()),
    }];
    let existing: Vec<String> = Vec::new();
    let (_, actions) = materialize_download(&inputs, &existing).unwrap();
    assert_eq!(actions[0].bytes, bytes);
}

#[test]
fn decimal_rendering() {
    assert_eq!(u64_to_dec(0), "0");
    assert_eq!(u64_to_dec(7), "7");
    assert_eq!(u64_to_dec(42), "42");
    assert_eq!(u64_to_dec(10_000), "10000");
    assert_eq!(u64_to_dec(u64::MAX), "18446744073709551615");
}

#[test]
fn item_lines_exact() {
    let downloaded = MaterializedResult {
        filename: "a.whl".to_string(),
        outcome: Outcome::Downloaded,
    };
    assert_eq!(item_line(&downloaded), "Downloaded a.whl");
    let skipped = MaterializedResult {
        filename: "a.whl".to_string(),
        outcome: Outcome::SkippedExisting,
    };
    assert_eq!(item_line(&skipped), "Skipping a.whl (already exists)");
    let built = MaterializedResult {
        filename: "a.whl".to_string(),
        outcome: Outcome::Built,
    };
    assert_eq!(item_line(&built), " - a.whl");
}

#[test]
fn lookup_name_validation() {
    assert!(matches!(
        validate_lookup_name(""),
        Err(PyPiSearchError::InvalidName(_))
    ));
    assert!(matches!(
        validate_lookup_name("package@evil"),
        Err(PyPiSearchError::InvalidName(_))
    ));
    let name = validate_lookup_name("  requests ").unwrap();
    assert_eq!(name, "requests");
    assert_eq!(
        pypi_request_url(&name),
        "https://pypi.org/pypi/requests/json"
    );
}

#[test]
fn configure_run_fails_on_missing_source() {
    let r = configure_run(
        vec![RequirementSource {
            path: "missing.txt".to_string(),
            entries: None,
        }],
        Vec::new(),
        Vec::new(),
        Vec::new(),
        Vec::new(),
        Vec::new(),
        Vec::new(),
        &Vec::new(),
        None,
        &Vec::new(),
        &Vec::new(),
        false,
        None,
    );
    match r {
        Err(e) => {
            assert!(matches!(e, PipelineError::Input(_)));
            assert_eq!(e.exit_code(), 2);
        },
        Ok(_) => panic!("expected the missing source to be fatal"),
    }
}

#[test]
fn configure_run_fails_before_work_under_require() {
    // Requiring hashes with a requirement lacking them fails during
    // configuration, before anything could be fetched or built.
    let r = configure_run(
        vec![RequirementSource {
            path: "requirements.txt".to_string(),
            entries: Some(vec![req("iniconfig", "iniconfig==2.0.0", vec![])]),
        }],
        Vec::new(),
        Vec::new(),
        Vec::new(),
        Vec::new(),
        Vec::new(),
        Vec::new(),
        &Vec::new(),
        None,
        &Vec::new(),
        &Vec::new(),
        false,
        Some(HashCheckingMode::Require),
    );
    match r {
        Err(e) => {
            assert!(matches!(e, PipelineError::Hashes(_)));
            assert_eq!(e.exit_code(), 1);
        },
        Ok(_) => panic!("expected the lacking hashes to be fatal"),
    }
}

#[test]
fn configure_run_builds_strategies() {
    let r = configure_run(
        vec![RequirementSource {
            path: "requirements.txt".to_string(),
            entries: Some(vec![req(
                "iniconfig",
                "iniconfig==2.0.0",
                vec!["sha256:aa"],
            )]),
        }],
        Vec::new(),
        Vec::new(),
        Vec::new(),
        Vec::new(),
        Vec::new(),
        Vec::new(),
        &vec![loc("https://pypi.org/simple", IndexKind::Registry, IndexOrigin::Cli)],
        None,
        &Vec::new(),
        &Vec::new(),
        false,
        Some(HashCheckingMode::Require),
    )
    .unwrap();
    assert_eq!(r.index_locations.len(), 1);
    assert!(r.hash_strategy.permits("iniconfig", Some(&"sha256:aa".to_string())));
    assert!(!r.hash_strategy.permits("iniconfig", Some(&"sha256:zz".to_string())));
    // The build-constraint strategy never requires hashes.
    assert!(r.build_hash_strategy.permits("anything", None));
}

#[test]
fn finish_download_run_end_to_end() {
    let artifact = PreparedArtifact {
        filename: "iniconfig-2.0.0-py3-none-any.whl".to_string(),
        cache_location: "/cache/iniconfig".to_string(),
        origin_kind: OriginKind::UnpackedWheelDirectory,
    };
    let inputs = vec![wheel_dir_input(
        "iniconfig-2.0.0-py3-none-any.whl",
        ("iniconfig/__init__.py", b"x"),
    )];
    let existing: Vec<String> = Vec::new();
    let (results, actions, lines, summary) =
        finish_download_run(vec![Ok(artifact)], &inputs, &existing, "0.10s").unwrap();
    assert_eq!(results.len(), 1);
    assert_eq!(actions.len(), 1);
    assert_eq!(lines, vec!["Downloaded iniconfig-2.0.0-py3-none-any.whl".to_string()]);
    assert_eq!(summary, "Downloaded 1 package in 0.10s");

    let failed = vec![Err(PrepareError {
        distribution: "iniconfig".to_string(),
        message: "fetch failed".to_string(),
    })];
    let r = finish_download_run(failed, &inputs, &existing, "0.10s");
    match r {
        Err(e) => assert_eq!(e.exit_code(), 1),
        Ok(_) => panic!("expected the preparation failure to be terminal"),
    }
}

#[test]
fn wheel_filenames_follow_the_scheme() {
    let name = uv::prepare::wheel_filename("iniconfig", "2.0.0", "py3", "none", "any");
    assert_eq!(name, "iniconfig-2.0.0-py3-none-any.whl");
}

#[test]
fn no_deps_graph_materializes_exactly_the_requested_names() {
    // A resolution graph holding only the explicitly requested names yields
    // a materialized set of exactly those names: no transitive dependents.
    let resolution = Resolution {
        distributions: vec![
            dist("flask", "3.0.0", SourceKind::Installable),
        ],
    };
    let plan = plan_fetches(&resolution.distributions);
    assert_eq!(plan.len(), 1);
    let filename = uv::prepare::wheel_filename(&plan[0].name, &plan[0].version, "py3", "none", "any");
    let inputs = vec![wheel_dir_input(&filename, ("flask/__init__.py", b"f"))];
    let existing: Vec<String> = Vec::new();
    let (results, _) = materialize_download(&inputs, &existing).unwrap();
    let names: Vec<&str> = results.iter().map(|m| m.filename.as_str()).collect();
    assert_eq!(names, vec!["flask-3.0.0-py3-none-any.whl"]);
}

#[test]
fn empty_run_reports_zero() {
    let inputs: Vec<MaterializeInput> = Vec::new();
    let existing: Vec<String> = Vec::new();
    let (results, actions) = materialize_download(&inputs, &existing).unwrap();
    assert!(results.is_empty());
    assert!(actions.is_empty());
    assert_eq!(download_summary(0, "0.00s"), "Downloaded 0 packages in 0.00s");
    assert_eq!(build_summary(0, "0.00s"), "Successfully built 0 wheels in 0.00s");
}

#[test]
fn require_mode_with_no_declarations_passes_configuration() {
    // With nothing declared at all, nothing lacks hashes; resolution would
    // then reject undeclared packages at verification time instead.
    let strategy =
        HashStrategy::from_requirements(&Vec::new(), &Vec::new(), HashCheckingMode::Require)
            .unwrap();
    assert!(!strategy.permits("anything", Some(&"sha256:aa".to_string())));
}

#[test]
fn registry_waiters_share_the_settled_result() {
    let mut registry = InFlightRegistry::new();
    let name = "iniconfig".to_string();
    let version = "2.0.0".to_string();
    assert_eq!(registry.acquire(&name, &version), AcquireOutcome::Owner);
    let artifact = PreparedArtifact {
        filename: "iniconfig-2.0.0-py3-none-any.whl".to_string(),
        cache_location: "/cache/iniconfig".to_string(),
        origin_kind: OriginKind::WheelFile,
    };
    registry.complete(&name, &version, Ok(artifact));
    // Every requester for the same identity sees the one settled result.
    for _ in 0..2 {
        match registry.result_of(&name, &version) {
            Some(PrepareSlot::Settled(Ok(a))) => {
                assert_eq!(a.filename, "iniconfig-2.0.0-py3-none-any.whl")
            },
            _ => panic!("expected the settled artifact"),
        }
    }
    assert!(registry.result_of(&"tomli".to_string(), &"2.0.1".to_string()).is_none());
}

#[test]
fn concurrency_limit_caps_in_flight_fetches() {
    assert_eq!(startable_fetches(4, 0, 10), 4);
    assert_eq!(startable_fetches(4, 3, 10), 1);
    assert_eq!(startable_fetches(4, 4, 10), 0);
    assert_eq!(startable_fetches(4, 9, 10), 0);
    assert_eq!(startable_fetches(4, 2, 1), 1);
    assert_eq!(startable_fetches(4, 2, 0), 0);
}

#[test]
fn resolution_failures_exit_with_one() {
    let e = PipelineError::Resolution("no solution found".to_string());
    assert_eq!(e.exit_code(), 1);
}

#[test]
fn duplicate_entry_names_fail_packing_with_context() {
    // The writer refuses a duplicate stored name; the error names the entry.
    let entries = vec![
        DirEntry { path: "a.py".to_string(), is_dir: false, data: b"1".to_vec() },
        DirEntry { path: "a.py".to_string(), is_dir: false, data: b"2".to_vec() },
    ];
    let plan = archive_plan(&entries);
    match pack_archive(&plan, None) {
        Err(e) => assert_eq!(e.context, "a.py"),
        Ok(_) => panic!("expected the duplicate name to be refused"),
    }
}

#[test]
fn finish_download_run_skips_on_second_run() {
    let artifact = PreparedArtifact {
        filename: "iniconfig-2.0.0-py3-none-any.whl".to_string(),
        cache_location: "/cache/iniconfig".to_string(),
        origin_kind: OriginKind::UnpackedWheelDirectory,
    };
    let inputs = vec![wheel_dir_input(
        "iniconfig-2.0.0-py3-none-any.whl",
        ("iniconfig/__init__.py", b"x"),
    )];
    let existing = vec!["iniconfig-2.0.0-py3-none-any.whl".to_string()];
    let (results, actions, lines, summary) =
        finish_download_run(vec![Ok(artifact)], &inputs, &existing, "0.01s").unwrap();
    assert_eq!(results.len(), 1);
    assert_eq!(results[0].outcome, Outcome::SkippedExisting);
    assert!(actions.is_empty());
    assert_eq!(
        lines,
        vec!["Skipping iniconfig-2.0.0-py3-none-any.whl (already exists)".to_string()]
    );
    assert_eq!(summary, "Downloaded 0 packages in 0.01s");
}
