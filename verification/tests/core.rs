use scarab::config::Config;
use scarab::db::Database;
use scarab::db::InstalledPackage;
use scarab::db::PackageInfo;
use scarab::error::Error;
use scarab::install::advance;
use scarab::install::archive_format;
use scarab::install::package_url;
use scarab::install::portfile_candidates;
use scarab::install::sync_url;
use scarab::install::ArchiveKind;
use scarab::install::InstallPlan;
use scarab::install::InstallStage;
use scarab::verify::sha256_hex;
use scarab::verify::verify_artifact;
use scarab::verify::VerifyOutcome;

fn pkg(name: &str, version: &str, description: &str, depends: &[&str], sha256: &str) -> PackageInfo {
    PackageInfo {
        name: name.to_string(),
        version: version.to_string(),
        category: "core".to_string(),
        description: description.to_string(),
        depends: depends.iter().map(|d| d.to_string()).collect(),
        size: "1024".to_string(),
        sha256: sha256.to_string(),
        filename: format!("{}-{}.tar.zst", name, version),
    }
}

fn inst(name: &str, version: &str) -> InstalledPackage {
    InstalledPackage {
        name: name.to_string(),
        version: version.to_string(),
        installed_at: "2024-01-01 00:00:00".to_string(),
        files: Vec::new(),
    }
}

fn db(packages: Vec<PackageInfo>, installed: Vec<InstalledPackage>) -> Database {
    Database::from_parts(packages, installed).unwrap()
}

fn names(v: &[InstalledPackage]) -> Vec<String> {
    v.iter().map(|r| r.name.clone()).collect()
}

#[test]
fn resolve_chain_post_order() {
    // A depends on B, B on C, C on nothing: resolve(A) = [C, B].
    let d = db(
        vec![pkg("a", "1", "", &["b"], ""), pkg("b", "1", "", &["c"], ""), pkg("c", "1", "", &[], "")],
        vec![],
    );
    let target = d.find_package("a").unwrap();
    let deps = d.resolve_deps(&target).unwrap();
    assert_eq!(deps, vec!["c".to_string(), "b".to_string()]);
}

#[test]
fn resolve_diamond_each_once_deps_first() {
    // A -> B, C; B -> D; C -> D: D once, before B and C; never A itself.
    let d = db(
        vec![
            pkg("a", "1", "", &["b", "c"], ""),
            pkg("b", "1", "", &["d"], ""),
            pkg("c", "1", "", &["d"], ""),
            pkg("d", "1", "", &[], ""),
        ],
        vec![],
    );
    let target = d.find_package("a").unwrap();
    let deps = d.resolve_deps(&target).unwrap();
    assert_eq!(deps, vec!["d".to_string(), "b".to_string(), "c".to_string()]);
}

#[test]
fn resolve_skips_installed_and_unknown() {
    // Installed dependencies and names unknown to the snapshot are omitted.
    let d = db(
        vec![pkg("a", "1", "", &["b", "ghost", "c"], ""), pkg("b", "1", "", &[], ""), pkg("c", "1", "", &[], "")],
        vec![inst("c", "1")],
    );
    let target = d.find_package("a").unwrap();
    let deps = d.resolve_deps(&target).unwrap();
    assert_eq!(deps, vec!["b".to_string()]);
}

#[test]
fn resolve_two_cycle_reports_cycle() {
    // A depends on B, B on A: resolving A terminates with CycleDetected.
    let d = db(
        vec![pkg("a", "1", "", &["b"], ""), pkg("b", "1", "", &["a"], "")],
        vec![],
    );
    let target = d.find_package("a").unwrap();
    match d.resolve_deps(&target) {
        Err(Error::CycleDetected { cycle }) => {
            assert_eq!(cycle, vec!["a".to_string(), "b".to_string()]);
        }
        other => panic!("expected a cycle, got {:?}", other.is_ok()),
    }
}

#[test]
fn install_on_installed_is_noop() {
    // Not forced, already installed: the plan is the no-op, nothing changes.
    let d = db(vec![pkg("a", "2", "", &[], "")], vec![inst("a", "1")]);
    match d.plan_install("a", false).unwrap() {
        InstallPlan::AlreadyInstalled { name, version } => {
            assert_eq!(name, "a");
            assert_eq!(version, "1");
        }
        _ => panic!("expected the no-op plan"),
    }
    assert_eq!(d.installed.len(), 1);
    assert_eq!(d.installed[0].version, "1");
}

#[test]
fn install_unknown_name_not_found() {
    let d = db(vec![], vec![]);
    match d.plan_install("nosuch", false) {
        Err(Error::NotFound { name }) => assert_eq!(name, "nosuch"),
        _ => panic!("expected NotFound"),
    }
}

#[test]
fn install_then_remove_round_trip() {
    // Recording an install and removing it restores the installed mapping.
    let mut d = db(
        vec![pkg("a", "1", "", &[], "")],
        vec![inst("b", "3"), inst("z", "9")],
    );
    let before = names(&d.installed);
    let target = d.find_package("a").unwrap();
    d.record_install(
        &target,
        "2024-06-01 12:00:00".to_string(),
        vec!["usr/bin/a".to_string()],
    );
    assert!(d.get_installed("a").is_some());
    assert_eq!(d.get_installed("a").unwrap().files, vec!["usr/bin/a".to_string()]);
    d.remove_installed("a");
    assert!(d.get_installed("a").is_none());
    assert_eq!(names(&d.installed), before);
}

#[test]
fn remove_not_installed_fails() {
    let d = db(vec![pkg("a", "1", "", &[], "")], vec![]);
    match d.plan_remove("a") {
        Err(Error::NotInstalled { name }) => assert_eq!(name, "a"),
        _ => panic!("expected NotInstalled"),
    }
}

#[test]
fn upgrades_exactly_the_stale_set() {
    // Exactly the installed names whose version string differs; byte-wise.
    let d = db(
        vec![pkg("a", "2", "", &[], ""), pkg("b", "1", "", &[], ""), pkg("c", "5", "", &[], "")],
        vec![inst("a", "1"), inst("b", "1"), inst("orphan", "7")],
    );
    let ups = d.check_upgrades();
    assert_eq!(ups, vec![("a".to_string(), "1".to_string(), "2".to_string())]);
}

#[test]
fn upgrading_all_clears_upgrades() {
    let mut d = db(
        vec![pkg("a", "2", "", &[], ""), pkg("b", "4", "", &[], "")],
        vec![inst("a", "1"), inst("b", "3")],
    );
    for (name, _, _) in d.check_upgrades() {
        let p = d.find_package(&name).unwrap();
        d.record_install(&p, "2024-06-01 12:00:00".to_string(), Vec::new());
    }
    assert!(d.check_upgrades().is_empty());
}

#[test]
fn checksum_mismatch_detected() {
    // An artifact whose digest differs from pkg.sha256 must be refused
    // before any extraction.
    let p = pkg("a", "1", "", &[], "0000000000000000000000000000000000000000000000000000000000000000");
    let data: Vec<u8> = b"hello".to_vec();
    match verify_artifact(&data, &p) {
        VerifyOutcome::Mismatch { expected, actual } => {
            assert_eq!(expected, p.sha256);
            assert_eq!(actual, "2cf24dba5fb0a30e26e83b2ac5b9e29e1b161e5c1fa7425e73043362938b9824");
        }
        _ => panic!("expected a mismatch"),
    }
}

#[test]
fn checksum_match_verifies() {
    let p = pkg("a", "1", "", &[], "2cf24dba5fb0a30e26e83b2ac5b9e29e1b161e5c1fa7425e73043362938b9824");
    let data: Vec<u8> = b"hello".to_vec();
    assert!(matches!(verify_artifact(&data, &p), VerifyOutcome::Verified));
}

#[test]
fn empty_checksum_skips_verification() {
    let p = pkg("a", "1", "", &[], "");
    let data: Vec<u8> = b"anything".to_vec();
    assert!(matches!(verify_artifact(&data, &p), VerifyOutcome::SkippedNoChecksum));
}

#[test]
fn sha256_hex_known_vector() {
    let empty: Vec<u8> = Vec::new();
    assert_eq!(
        sha256_hex(&empty),
        "e3b0c44298fc1c149afbf4c8996fb92427ae41e4649b934ca495991b7852b855"
    );
}

#[test]
fn search_is_case_insensitive_over_name_and_description() {
    let d = db(
        vec![
            pkg("zlib", "1", "compression", &[], ""),
            pkg("openssl", "3", "TLS Library", &[], ""),
            pkg("vim", "9", "editor", &[], ""),
        ],
        vec![],
    );
    let hits = d.search("lib");
    let hit_names: Vec<String> = hits.iter().map(|p| p.name.clone()).collect();
    assert_eq!(hit_names, vec!["zlib".to_string(), "openssl".to_string()]);
    // Upper-case query reaches the same packages through lowercasing.
    let upper = d.search("LIB");
    assert_eq!(upper.len(), 2);
    assert!(d.search("nothinglikethis").is_empty());
}

#[test]
fn list_installed_sorted_by_name() {
    let d = db(
        vec![],
        vec![inst("zsh", "5"), inst("bash", "5"), inst("make", "4")],
    );
    assert_eq!(
        names(&d.list_installed()),
        vec!["bash".to_string(), "make".to_string(), "zsh".to_string()]
    );
}

#[test]
fn duplicate_names_rejected() {
    match Database::from_parts(
        vec![pkg("a", "1", "", &[], ""), pkg("a", "2", "", &[], "")],
        vec![],
    ) {
        Err(Error::DuplicatePackage { name }) => assert_eq!(name, "a"),
        _ => panic!("expected DuplicatePackage"),
    }
}

#[test]
fn find_package_exact_and_not_found() {
    let d = db(vec![pkg("gcc", "13", "", &[], "")], vec![]);
    assert_eq!(d.find_package("gcc").unwrap().version, "13");
    match d.find_package("gc") {
        Err(Error::NotFound { name }) => assert_eq!(name, "gc"),
        _ => panic!("expected NotFound"),
    }
}

#[test]
fn archive_formats_recognized() {
    assert!(matches!(archive_format("x-1.tar.zst"), ArchiveKind::TarZst));
    assert!(matches!(archive_format("x-1.tar.gz"), ArchiveKind::TarGz));
    assert!(matches!(archive_format("x-1.tgz"), ArchiveKind::TarGz));
    assert!(matches!(archive_format("x-1.tar.xz"), ArchiveKind::TarXz));
    assert!(matches!(archive_format("x-1.zip"), ArchiveKind::Unknown));
}

#[test]
fn urls_built_as_documented() {
    let p = pkg("nano", "7.2", "", &[], "");
    assert_eq!(
        package_url("https://repo.example", &p),
        "https://repo.example/v7.2/nano-7.2.tar.zst"
    );
    assert_eq!(sync_url("https://repo.example"), "https://repo.example/latest/repo.json");
}

#[test]
fn portfile_candidates_in_probe_order() {
    let c = portfile_candidates("/usr/ports", "nano");
    assert_eq!(
        c,
        vec![
            "/usr/ports/core/nano/Portfile".to_string(),
            "/usr/ports/lib/nano/Portfile".to_string(),
            "/usr/ports/devel/nano/Portfile".to_string(),
            "/usr/ports/net/nano/Portfile".to_string(),
            "/usr/ports/extra/nano/Portfile".to_string(),
        ]
    );
}

#[test]
fn default_config_paths() {
    let c = Config::default();
    assert_eq!(c.root, "/");
    assert_eq!(c.db_dir, "/var/lib/scarab");
    assert_eq!(c.cache_dir, "/var/cache/scarab");
    assert_eq!(c.ports_dir, "/usr/ports");
    assert_eq!(c.repo_url, "https://github.com/scarab-os/packages/releases/download");
    assert_eq!(c.arch, "x86_64");
}

#[test]
fn stage_chain_guards_extraction() {
    // The transaction reaches Extracted only by succeeding at Verified, so a
    // checksum failure forecloses any filesystem mutation.
    let s = advance(InstallStage::Fetched, true);
    assert!(matches!(s, InstallStage::Verified));
    let failed = advance(InstallStage::Fetched, false);
    assert!(matches!(failed, InstallStage::Failed));
    assert!(matches!(advance(failed, true), InstallStage::Failed));
    assert!(matches!(advance(InstallStage::Verified, true), InstallStage::Extracted));
    assert!(matches!(advance(InstallStage::Extracted, true), InstallStage::Recorded));
}

#[test]
fn forced_install_replans_installed_package() {
    let d = db(vec![pkg("a", "2", "", &[], "")], vec![inst("a", "1")]);
    match d.plan_install("a", true).unwrap() {
        InstallPlan::Proceed { pkg: target, deps } => {
            assert_eq!(target.name, "a");
            assert_eq!(target.version, "2");
            assert!(deps.is_empty());
        }
        _ => panic!("expected a full plan under force"),
    }
}
