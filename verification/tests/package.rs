use butterfly::error::Error;
use butterfly::package::ident::PackageIdent;
use butterfly::package::ident_target::PackageIdentTarget;
use butterfly::package::target::PackageTarget;
use butterfly::package::text::split;
use std::cmp::Ordering;

fn full(origin: &str, name: &str, version: &str, release: &str) -> PackageIdent {
    PackageIdent::new(origin, name, Some(version), Some(release))
}

fn redis(target: PackageTarget) -> PackageIdentTarget {
    PackageIdentTarget::new(full("core", "redis", "3.0.1", "20200101120000"), target)
}

#[test]
fn split_cuts_at_every_separator() {
    assert_eq!(split("a/b/c", '/'), vec!["a", "b", "c"]);
    assert_eq!(split("", '/'), vec![""]);
    assert_eq!(split("/", '/'), vec!["", ""]);
    assert_eq!(split("a//b/", '/'), vec!["a", "", "b", ""]);
    assert_eq!(split("no separator", '/'), vec!["no separator"]);
    assert_eq!(split("é/日本/x", '/'), vec!["é", "日本", "x"]);
}

#[test]
fn target_names() {
    let all = [
        (PackageTarget::X86_64Darwin, "x86_64-darwin"),
        (PackageTarget::X86_64Linux, "x86_64-linux"),
        (PackageTarget::X86_64LinuxKernel2, "x86_64-linux-kernel2"),
        (PackageTarget::X86_64Windows, "x86_64-windows"),
    ];
    for (i, (target, name)) in all.iter().enumerate() {
        assert_eq!(target.name(), *name);
        assert_eq!(target.rank() as usize, i);
        assert_eq!(PackageTarget::from_str(name).unwrap(), *target);
    }
}

#[test]
fn unknown_target_is_refused() {
    match PackageTarget::from_str("x86_64-plan9") {
        Err(Error::InvalidPackageTarget(text)) => assert_eq!(text, "x86_64-plan9"),
        other => panic!("{:?}", other),
    }
    assert!(PackageTarget::from_str("").is_err());
    assert!(PackageTarget::from_str("X86_64-LINUX").is_err());
}

#[test]
fn ident_as_text() {
    assert_eq!(
        full("core", "redis", "3.0.1", "20200101120000").to_string(),
        "core/redis/3.0.1/20200101120000"
    );
    assert_eq!(PackageIdent::new("core", "redis", Some("3.0.1"), None).to_string(), "core/redis/3.0.1");
    assert_eq!(PackageIdent::new("core", "redis", None, None).to_string(), "core/redis");
    assert_eq!(PackageIdent::new("core", "redis", None, Some("1")).to_string(), "core/redis");
}

#[test]
fn archive_name_of_a_fully_qualified_ident() {
    assert_eq!(
        redis(PackageTarget::X86_64Linux).archive_name().unwrap(),
        "core-redis-3.0.1-20200101120000-x86_64-linux.hart"
    );
    assert_eq!(
        redis(PackageTarget::X86_64Windows).archive_name().unwrap(),
        "core-redis-3.0.1-20200101120000-x86_64-windows.hart"
    );
}

#[test]
fn archive_name_needs_version_and_release() {
    let partial = PackageIdentTarget::new(
        PackageIdent::new("core", "redis", Some("3.0.1"), None),
        PackageTarget::X86_64Linux,
    );
    match partial.archive_name() {
        Err(Error::FullyQualifiedPackageIdentRequired(text)) => {
            assert_eq!(text, "core/redis/3.0.1")
        }
        other => panic!("{:?}", other),
    }
    let bare = PackageIdent::new("core", "redis", None, None);
    assert!(!bare.fully_qualified());
    assert!(bare.archive_name_with_target(PackageTarget::X86_64Linux).is_err());
}

#[test]
fn ident_target_as_text() {
    assert_eq!(
        redis(PackageTarget::X86_64LinuxKernel2).to_string(),
        "core/redis/3.0.1/20200101120000/x86_64-linux-kernel2"
    );
}

#[test]
fn from_str_reads_five_parts() {
    let parsed =
        PackageIdentTarget::from_str("core/redis/3.0.1/20200101120000/x86_64-linux").unwrap();
    assert_eq!(parsed, redis(PackageTarget::X86_64Linux));
    assert_eq!(parsed.ident.origin, "core");
    assert_eq!(parsed.ident.name, "redis");
    assert_eq!(parsed.ident.version.as_deref(), Some("3.0.1"));
    assert_eq!(parsed.ident.release.as_deref(), Some("20200101120000"));
    assert_eq!(parsed.target, PackageTarget::X86_64Linux);
}

#[test]
fn from_str_gives_back_what_to_string_gave() {
    for target in [
        PackageTarget::X86_64Darwin,
        PackageTarget::X86_64Linux,
        PackageTarget::X86_64LinuxKernel2,
        PackageTarget::X86_64Windows,
    ] {
        let p = redis(target);
        assert_eq!(PackageIdentTarget::from_str(&p.to_string()).unwrap(), p);
    }
}

#[test]
fn from_str_refuses_other_forms() {
    for value in [
        "",
        "core/redis",
        "core/redis/3.0.1/20200101120000",
        "core/redis/3.0.1/20200101120000/x86_64-linux/more",
        "core/redis/3.0.1/20200101120000/sparc-solaris",
        "core/redis/3.0.1/20200101120000/",
    ] {
        match PackageIdentTarget::from_str(value) {
            Err(Error::InvalidPackageIdentTarget(text)) => assert_eq!(text, value),
            other => panic!("{:?}", other),
        }
    }
}

#[test]
fn order_goes_by_parts_then_by_target() {
    let a = redis(PackageTarget::X86_64Linux);
    assert_eq!(a.cmp(&redis(PackageTarget::X86_64Linux)), Ordering::Equal);
    assert_eq!(a.cmp(&redis(PackageTarget::X86_64Windows)), Ordering::Less);
    assert_eq!(a.cmp(&redis(PackageTarget::X86_64Darwin)), Ordering::Greater);
    assert_eq!(a.partial_cmp(&redis(PackageTarget::X86_64Darwin)), Some(Ordering::Greater));

    let by = |o: &str, n: &str, v: &str, r: &str| {
        PackageIdentTarget::new(full(o, n, v, r), PackageTarget::X86_64Darwin)
    };
    assert_eq!(a.cmp(&by("core", "redis", "3.0.1", "20200101120001")), Ordering::Less);
    assert_eq!(a.cmp(&by("core", "redis", "3.0.0", "99999999999999")), Ordering::Greater);
    assert_eq!(a.cmp(&by("core", "redit", "0", "0")), Ordering::Less);
    assert_eq!(a.cmp(&by("acme", "zzz", "9", "9")), Ordering::Greater);
    assert_eq!(a.cmp(&by("core", "redi", "9", "9")), Ordering::Greater);
    assert_eq!(by("core", "redi", "9", "9").cmp(&a), Ordering::Less);
}

#[test]
fn a_missing_part_comes_first() {
    let bare = PackageIdent::new("core", "redis", None, None);
    let versioned = PackageIdent::new("core", "redis", Some("0"), None);
    let released = full("core", "redis", "0", "0");
    assert_eq!(bare.by_parts_cmp(&versioned), Ordering::Less);
    assert_eq!(versioned.by_parts_cmp(&released), Ordering::Less);
    assert_eq!(released.by_parts_cmp(&bare), Ordering::Greater);
    assert_eq!(bare.by_parts_cmp(&bare.clone()), Ordering::Equal);
}

#[test]
fn same_as_compares_every_part() {
    let a = redis(PackageTarget::X86_64Linux);
    assert!(a.same_as(&a.clone()));
    assert!(!a.same_as(&redis(PackageTarget::X86_64Windows)));
    assert!(!a.ident.same_as(&full("core", "redis", "3.0.1", "20200101120001")));
    assert!(!a.ident.same_as(&PackageIdent::new("core", "redis", Some("3.0.1"), None)));
    assert!(!a.ident.same_as(&full("core", "redis", "3.0.2", "20200101120000")));
    assert!(!a.ident.same_as(&full("core", "rediz", "3.0.1", "20200101120000")));
    assert!(!a.ident.same_as(&full("cora", "redis", "3.0.1", "20200101120000")));
}

#[test]
fn texts_parse_into_targets_and_identifiers() {
    let target: PackageTarget = "x86_64-windows".parse().unwrap();
    assert_eq!(target, PackageTarget::X86_64Windows);
    assert!("windows".parse::<PackageTarget>().is_err());
    let parsed: PackageIdentTarget =
        "core/redis/3.0.1/20200101120000/x86_64-darwin".parse().unwrap();
    assert_eq!(parsed, redis(PackageTarget::X86_64Darwin));
    assert!("core/redis".parse::<PackageIdentTarget>().is_err());
}
