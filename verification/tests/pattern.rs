use kubizone::pattern::domain_matches_pattern;

#[test]
fn pattern_matching() {
    // Should match on exact equivalence.
    assert!(domain_matches_pattern("www.example.org", "www.example.org"));

    // Should match on simple wildcard substitution.
    assert!(domain_matches_pattern("*.example.org", "www.example.org"));

    // Should match arbitrary prefixes and segments, if first segment is plain
    // wildcard.
    assert!(domain_matches_pattern(
        "*.example.org",
        "www.test.example.org"
    ));

    // Should NOT match arbitrary prefixes and segments, if first segment
    // is *made up of* wildcard and other values.
    assert!(!domain_matches_pattern(
        "env-*.example.org",
        "www.env-dev.example.org"
    ));

    // Should match if first segment is plain wildcard, and higher segments
    // match, but are partial wildcards.
    assert!(domain_matches_pattern(
        "*.env-*.example.org",
        "www.env-dev.example.org"
    ));

    // Should NOT match subdomains of explicit paths without wildcards.
    assert!(!domain_matches_pattern("example.org", "www.example.org"));
}

#[test]
fn every_name_matches_itself() {
    for name in [
        "",
        ".",
        "org",
        "example.org.",
        "www.example.org",
        "*.example.org",
        "a*b*c.example.org",
        "**",
        "..",
        "ünï.cödé.",
    ] {
        assert!(domain_matches_pattern(name, name), "{name}");
    }
}

#[test]
fn wildcard_scope() {
    assert!(domain_matches_pattern("*.e.org", "a.b.c.e.org"));
    assert!(!domain_matches_pattern("env-*.e.org", "a.env-dev.e.org"));
}

#[test]
fn wildcard_needs_prefix_and_suffix() {
    assert!(domain_matches_pattern("env-*.e.org", "env-dev.e.org"));
    assert!(domain_matches_pattern("env-*.e.org", "env-.e.org"));
    assert!(!domain_matches_pattern("env-*.e.org", "en.e.org"));
    assert!(domain_matches_pattern("*-prod.e.org", "db-prod.e.org"));
    assert!(!domain_matches_pattern("*-prod.e.org", "db-dev.e.org"));
    assert!(domain_matches_pattern("a*z.e.org", "abcz.e.org"));
    assert!(!domain_matches_pattern("a*z.e.org", "abc.e.org"));
    // Head and tail may share characters of the domain segment.
    assert!(domain_matches_pattern("ab*ba.e.org", "aba.e.org"));
}

#[test]
fn segment_with_two_stars_matches_only_itself() {
    assert!(!domain_matches_pattern("a*b*c.e.org", "axbxc.e.org"));
    assert!(domain_matches_pattern("a*b*c.e.org", "a*b*c.e.org"));
    assert!(!domain_matches_pattern("**.e.org", "www.e.org"));
}

#[test]
fn every_pair_of_segments_must_match() {
    // A wildcard further right does not excuse a mismatch further left.
    assert!(!domain_matches_pattern("www.*.org", "ftp.example.org"));
    assert!(domain_matches_pattern("www.*.org", "www.example.org"));
    assert!(!domain_matches_pattern("*.b.example.org", "x.c.example.org"));
}

#[test]
fn leading_star_covers_deeper_and_shallower_names() {
    assert!(domain_matches_pattern("*.org", "a.b.org"));
    // Only the pairs that exist are compared.
    assert!(domain_matches_pattern("*.a.b.org", "b.org"));
    assert!(!domain_matches_pattern("*.a.b.org", "c.org"));
    // A lone star matches any single segment, the empty one too.
    assert!(domain_matches_pattern("*", ""));
    assert!(domain_matches_pattern("*", "a.b"));
}

#[test]
fn trailing_dot_is_a_segment() {
    assert!(domain_matches_pattern("*.example.org.", "www.example.org."));
    assert!(!domain_matches_pattern("*.example.org.", "www.example.org"));
    assert!(!domain_matches_pattern("example.org", "example.org."));
}
