use butterfly::download::{
    determine_latest_from_ident, download_failed, expand_sources, fetch_artifact, verify_artifact,
    ApiFailure, Fetch, Package, RETRIES, RETRY_WAIT,
};
use butterfly::error::Error;
use butterfly::package::ident::PackageIdent;
use butterfly::package::ident_target::PackageIdentTarget;
use butterfly::package::target::PackageTarget;

fn ident(name: &str) -> PackageIdent {
    PackageIdent::new("core", name, Some("1.0.0"), Some("20200101000000"))
}

fn package(name: &str, tdeps: &[&str]) -> Package {
    Package { ident: ident(name), tdeps: tdeps.iter().map(|d| ident(d)).collect() }
}

fn wanted(name: &str) -> PackageIdentTarget {
    PackageIdentTarget::new(ident(name), PackageTarget::X86_64Linux)
}

fn names(expanded: &[PackageIdentTarget]) -> Vec<String> {
    expanded.iter().map(|p| p.ident.name.clone()).collect()
}

#[test]
fn retry_settings() {
    assert_eq!(RETRIES, 5);
    assert_eq!(RETRY_WAIT, 3000);
}

#[test]
fn expansion_holds_each_package_and_its_dependencies_once() {
    let packages = vec![
        package("redis", &["glibc", "gcc-libs"]),
        package("nginx", &["glibc", "openssl", "gcc-libs", "pcre"]),
        package("glibc", &[]),
    ];
    let expanded = expand_sources(packages, PackageTarget::X86_64Linux);
    assert_eq!(names(&expanded), vec!["redis", "glibc", "gcc-libs", "nginx", "openssl", "pcre"]);
    assert!(expanded.iter().all(|p| p.target == PackageTarget::X86_64Linux));
}

#[test]
fn expansion_of_nothing_is_empty() {
    assert!(expand_sources(Vec::new(), PackageTarget::X86_64Windows).is_empty());
}

#[test]
fn expansion_tells_releases_apart() {
    let mut other = package("redis", &[]);
    other.ident.release = Some("20200202000000".to_string());
    let expanded =
        expand_sources(vec![package("redis", &["redis"]), other], PackageTarget::X86_64Darwin);
    assert_eq!(expanded.len(), 2);
    assert_eq!(expanded[1].ident.release.as_deref(), Some("20200202000000"));
}

#[test]
fn latest_release_that_the_depot_names_is_used() {
    let found = determine_latest_from_ident(Ok(package("redis", &["glibc"])), &wanted("redis"), "stable")
        .unwrap();
    assert_eq!(found.ident, ident("redis"));
    assert_eq!(found.tdeps, vec![ident("glibc")]);
}

#[test]
fn not_found_means_the_channel_lacks_the_package() {
    let r = determine_latest_from_ident(
        Err(ApiFailure::Api(404, "Not Found".to_string())),
        &wanted("redis"),
        "stable",
    );
    match r {
        Err(Error::PackageNotFound(what)) => {
            assert_eq!(what, "core/redis/1.0.0/20200101000000/x86_64-linux in channel stable")
        }
        other => panic!("{:?}", other),
    }
}

#[test]
fn other_failures_of_the_depot_are_passed_on() {
    let r = determine_latest_from_ident(
        Err(ApiFailure::Api(500, "boom".to_string())),
        &wanted("redis"),
        "stable",
    );
    assert!(matches!(r, Err(Error::APIClient(ApiFailure::Api(500, ref t))) if t == "boom"));
    let r = determine_latest_from_ident(
        Err(ApiFailure::Api(501, String::new())),
        &wanted("redis"),
        "stable",
    );
    assert!(matches!(r, Err(Error::APIClient(ApiFailure::Api(501, _)))));
    let r = determine_latest_from_ident(
        Err(ApiFailure::Other("no route".to_string())),
        &wanted("redis"),
        "stable",
    );
    assert!(matches!(r, Err(Error::APIClient(ApiFailure::Other(ref t))) if t == "no route"));
}

#[test]
fn fetch_answers() {
    assert_eq!(fetch_artifact(Ok(())).unwrap(), Fetch::Fetched);
    assert_eq!(
        fetch_artifact(Err(ApiFailure::Api(501, "Not Implemented".to_string()))).unwrap(),
        Fetch::Skipped
    );
    assert!(matches!(
        fetch_artifact(Err(ApiFailure::Api(404, String::new()))),
        Err(Error::APIClient(ApiFailure::Api(404, _)))
    ));
    assert!(matches!(
        fetch_artifact(Err(ApiFailure::Other("timeout".to_string()))),
        Err(Error::APIClient(ApiFailure::Other(_)))
    ));
}

#[test]
fn download_failure_names_tries_package_and_last_error() {
    match download_failed(&wanted("redis"), "connection reset") {
        Error::DownloadFailed(text) => assert_eq!(
            text,
            "We tried 5 times but could not download \
             core/redis/1.0.0/20200101000000/x86_64-linux. Last error was: connection reset"
        ),
        other => panic!("{:?}", other),
    }
}

#[test]
fn artifact_that_was_asked_for_passes() {
    let r = verify_artifact(
        &wanted("redis"),
        &ident("redis"),
        PackageTarget::X86_64Linux,
        "core-redis-1.0.0-20200101000000-x86_64-linux.hart",
    );
    assert!(r.is_ok());
}

#[test]
fn artifact_of_another_package_is_refused() {
    let r = verify_artifact(&wanted("redis"), &ident("nginx"), PackageTarget::X86_64Linux, "x.hart");
    match r {
        Err(Error::ArtifactIdentMismatch(file, found, asked)) => {
            assert_eq!(file, "x.hart");
            assert_eq!(found, "core/nginx/1.0.0/20200101000000");
            assert_eq!(asked, "core/redis/1.0.0/20200101000000/x86_64-linux");
        }
        other => panic!("{:?}", other),
    }
}

#[test]
fn artifact_for_another_target_is_refused() {
    let r =
        verify_artifact(&wanted("redis"), &ident("redis"), PackageTarget::X86_64Windows, "x.hart");
    assert!(matches!(
        r,
        Err(Error::WrongActivePackageTarget(
            PackageTarget::X86_64Linux,
            PackageTarget::X86_64Windows
        ))
    ));
}

#[test]
fn identifier_is_checked_before_the_target() {
    let r =
        verify_artifact(&wanted("redis"), &ident("nginx"), PackageTarget::X86_64Windows, "x.hart");
    assert!(matches!(r, Err(Error::ArtifactIdentMismatch(_, _, _))));
}
