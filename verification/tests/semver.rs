use dsh_desktop::semver::{extract_version, find_semver, parse_semver, version_at_least};

#[test]
fn find_bare_version() {
    assert_eq!(find_semver("0.1.0").as_deref(), Some("0.1.0"));
}

#[test]
fn find_prefixed_version() {
    assert_eq!(find_semver("v22.19.0").as_deref(), Some("22.19.0"));
}

#[test]
fn find_prerelease_version() {
    assert_eq!(find_semver("dsh 0.1.0-rc.6").as_deref(), Some("0.1.0-rc.6"));
}

#[test]
fn find_version_in_tarball_name() {
    assert_eq!(find_semver("npm http fetch GET 200 https://r/dsh-0.1.0.tgz").as_deref(), Some("0.1.0"));
}

#[test]
fn find_skips_short_runs() {
    assert_eq!(find_semver("1.2a3.4.5").as_deref(), Some("3.4.5"));
    assert_eq!(find_semver("build 12.3 then 4.5.6").as_deref(), Some("4.5.6"));
}

#[test]
fn find_keeps_build_suffix() {
    assert_eq!(find_semver("1.2.3-beta.1+build.5").as_deref(), Some("1.2.3-beta.1+build.5"));
    assert_eq!(find_semver("1.2.3+build").as_deref(), Some("1.2.3+build"));
    assert_eq!(find_semver("v1.2.3+ rest").as_deref(), Some("1.2.3+"));
    assert_eq!(find_semver("1.2.3-rc-1+b2+c3").as_deref(), Some("1.2.3-rc-1+b2"));
}

#[test]
fn find_takes_first_three_components() {
    assert_eq!(find_semver("1.2.3.4").as_deref(), Some("1.2.3"));
}

#[test]
fn find_none_without_version() {
    assert_eq!(find_semver("command not found"), None);
    assert_eq!(find_semver("1.2."), None);
    assert_eq!(find_semver(""), None);
}

#[test]
fn find_after_non_ascii() {
    assert_eq!(find_semver("版本 2.0.1 已安装").as_deref(), Some("2.0.1"));
}

#[test]
fn extract_scans_from_last_line() {
    let lines = vec!["dsh 1.0.0".to_string(), "upgraded to 1.1.0".to_string(), "done".to_string()];
    assert_eq!(extract_version(&lines).as_deref(), Some("1.1.0"));
    assert_eq!(extract_version(&[]), None);
    assert_eq!(extract_version(&["no".to_string()]), None);
}

#[test]
fn parse_full_version() {
    assert_eq!(parse_semver("22.19.0"), Some((22, 19, 0)));
    assert_eq!(parse_semver("0.1.0-rc.6"), Some((0, 1, 0)));
    assert_eq!(parse_semver("1.2.3+build"), Some((1, 2, 3)));
}

#[test]
fn parse_missing_patch_is_zero() {
    assert_eq!(parse_semver("1.2"), Some((1, 2, 0)));
}

#[test]
fn parse_ignores_extra_components() {
    assert_eq!(parse_semver("1.2.3.4"), Some((1, 2, 3)));
}

#[test]
fn parse_rejects_bad_input() {
    assert_eq!(parse_semver("1"), None);
    assert_eq!(parse_semver(""), None);
    assert_eq!(parse_semver("v1.2.3"), None);
    assert_eq!(parse_semver("1..2"), None);
    assert_eq!(parse_semver("1.2."), None);
    assert_eq!(parse_semver("+1.2.3"), None);
    assert_eq!(parse_semver("a.b.c"), None);
}

#[test]
fn parse_limits_to_u64() {
    assert_eq!(parse_semver("18446744073709551615.0.0"), Some((u64::MAX, 0, 0)));
    assert_eq!(parse_semver("18446744073709551616.0.0"), None);
    assert_eq!(parse_semver("1.99999999999999999999"), None);
}

#[test]
fn version_order() {
    assert!(version_at_least((22, 19, 0), (22, 19, 0)));
    assert!(version_at_least((23, 0, 0), (22, 19, 0)));
    assert!(version_at_least((22, 20, 0), (22, 19, 5)));
    assert!(!version_at_least((22, 18, 9), (22, 19, 0)));
    assert!(!version_at_least((21, 99, 99), (22, 19, 0)));
    assert!(!version_at_least((22, 19, 0), (22, 19, 1)));
}

#[test]
fn version_order_is_total_and_transitive() {
    let vs = [(1, 2, 3), (1, 2, 4), (1, 3, 0), (2, 0, 0), (0, 9, 9)];
    for a in vs {
        assert!(version_at_least(a, a));
        for b in vs {
            assert!(version_at_least(a, b) || version_at_least(b, a));
            for c in vs {
                if version_at_least(a, b) && version_at_least(b, c) {
                    assert!(version_at_least(a, c));
                }
            }
        }
    }
}

#[test]
fn found_version_parses() {
    for line in ["node v22.19.0", "dsh 0.1.0-rc.6", "x-1.22.333.tgz", "1.2.3+build.5"] {
        let v = find_semver(line).unwrap();
        assert!(parse_semver(&v).is_some());
    }
}

#[test]
fn parse_round_trips_written_versions() {
    for (a, b, c) in [(0, 0, 0), (22, 19, 0), (1, 2, 3), (u64::MAX, 10, 9)] {
        assert_eq!(parse_semver(&format!("{a}.{b}.{c}")), Some((a, b, c)));
        assert_eq!(parse_semver(&format!("{a}.{b}.{c}-rc.1")), Some((a, b, c)));
        assert_eq!(parse_semver(&format!("{a}.{b}.{c}+x-y.z")), Some((a, b, c)));
    }
}
