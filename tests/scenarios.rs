use robotstxt_rs::{extract_domain, path_matches, RobotsTxt};

#[test]
fn wildcard_group_allows_and_denies() {
    let robots = RobotsTxt::parse("User-agent: *\nDisallow: /admin/\nAllow: /public/\n");
    assert!(robots.can_fetch("Mozilla", "/public/x"));
    assert!(!robots.can_fetch("Mozilla", "/admin/x"));
}

#[test]
fn repeated_agent_blocks_accumulate() {
    let robots = RobotsTxt::parse("User-agent: A\nDisallow: /one\n\nUser-agent: A\nDisallow: /two\n");
    let rules = robots.get_rules();
    assert_eq!(rules.len(), 1);
    let rule = robots.get_rule("A").unwrap();
    assert_eq!(rule.user_agent, "a");
    assert_eq!(rule.disallowed, vec!["/one".to_string(), "/two".to_string()]);
    assert!(!robots.can_fetch("a", "/one/x"));
    assert!(!robots.can_fetch("A", "/two"));
}

#[test]
fn anchored_wildcard_strips_stars() {
    assert!(!path_matches("/x/y.html", "/*.html$"));
    assert!(path_matches("/.html", "/*.html$"));
}

#[test]
fn unknown_agent_without_wildcard_is_allowed() {
    let robots = RobotsTxt::parse("User-agent: Googlebot\nDisallow: /\n");
    assert!(robots.can_fetch("Bingbot", "/"));
    assert!(robots.can_fetch("Bingbot", "/anything/at/all"));
    assert!(robots.get_rule("Bingbot").is_none());
    assert!(!robots.can_fetch("Googlebot", "/x"));
}

#[test]
fn sitemap_ends_agent_group() {
    let robots = RobotsTxt::parse(
        "User-agent: bot\nDisallow: /a\nSitemap: https://example.com/s.xml\nDisallow: /b\n",
    );
    let rule = robots.get_rule("bot").unwrap();
    assert_eq!(rule.disallowed, vec!["/a".to_string()]);
    assert_eq!(robots.get_sitemaps(), &["https://example.com/s.xml".to_string()]);
    assert!(robots.can_fetch("bot", "/b"));
    assert!(!robots.can_fetch("bot", "/a"));
}

#[test]
fn plain_pattern_is_prefix_match() {
    assert!(path_matches("/abc", "/ab"));
    assert!(path_matches("/ab", "/ab"));
    assert!(!path_matches("/a", "/ab"));
    assert!(path_matches("/anything", ""));
}

#[test]
fn empty_disallow_denies_nothing() {
    let robots = RobotsTxt::parse("User-agent: *\nDisallow:\n");
    assert!(robots.can_fetch("any", "/"));
    assert!(robots.can_fetch("any", "/private"));
    let with_other = RobotsTxt::parse("User-agent: *\nDisallow:\nDisallow: /x\n");
    assert!(with_other.can_fetch("any", "/y"));
    assert!(!with_other.can_fetch("any", "/x"));
}

#[test]
fn empty_input_gives_empty_document() {
    let robots = RobotsTxt::parse("");
    assert!(robots.get_rules().is_empty());
    assert!(robots.get_sitemaps().is_empty());
    assert!(robots.get_comments().is_empty());
    assert!(robots.get_domain().is_none());
    assert!(robots.can_fetch("bot", "/"));
}

#[test]
fn garbage_lines_are_skipped() {
    let robots = RobotsTxt::parse("\u{0}\u{1}garbage\nno colon here\nUser-agent: *\nCrawl-delay: 10\nDisallow: /x\n");
    assert_eq!(robots.get_rules().len(), 1);
    assert!(!robots.can_fetch("bot", "/x"));
    assert!(robots.can_fetch("bot", "/y"));
}

#[test]
fn longer_allow_overrides_disallow() {
    let robots = RobotsTxt::parse("User-agent: *\nDisallow: /shop\nAllow: /shop/cart\n");
    assert!(robots.can_fetch("bot", "/shop/cart/1"));
    assert!(!robots.can_fetch("bot", "/shop/other"));
    // An allow pattern of the same length does not win.
    let tie = RobotsTxt::parse("User-agent: *\nDisallow: /abc\nAllow: /abc\n");
    assert!(!tie.can_fetch("bot", "/abc"));
}

#[test]
fn allow_list_without_match_is_restrictive() {
    let robots = RobotsTxt::parse("User-agent: *\nAllow: /public/\n");
    assert!(robots.can_fetch("bot", "/public/a"));
    assert!(!robots.can_fetch("bot", "/other"));
}

#[test]
fn agent_lookup_ignores_case() {
    let robots = RobotsTxt::parse("USER-AGENT: GoogleBot\nDISALLOW: /x\nuser-agent: *\nallow: /\n");
    assert!(!robots.can_fetch("GOOGLEBOT", "/x"));
    assert!(!robots.can_fetch("googlebot", "/x/y"));
    assert!(robots.can_fetch("other", "/x"));
    let rule = robots.get_rule("GoogleBOT").unwrap();
    assert_eq!(rule.user_agent, "googlebot");
}

#[test]
fn exact_agent_rule_beats_wildcard() {
    let robots = RobotsTxt::parse("User-agent: *\nDisallow: /\n\nUser-agent: good\nDisallow:\n");
    assert!(robots.can_fetch("good", "/page"));
    assert!(!robots.can_fetch("bad", "/page"));
    assert_eq!(robots.get_rule("bad").unwrap().user_agent, "*");
}

#[test]
fn consecutive_agents_share_directives() {
    let robots = RobotsTxt::parse("User-agent: a\nUser-agent: b\nDisallow: /x\n");
    assert!(!robots.can_fetch("a", "/x"));
    assert!(!robots.can_fetch("b", "/x"));
    assert_eq!(robots.get_rules().len(), 2);
}

#[test]
fn comments_are_trimmed_and_kept_in_order() {
    let robots = RobotsTxt::parse("#  first  \n   # second\nUser-agent: * # not a comment line\n");
    assert_eq!(
        robots.get_comments(),
        &["first".to_string(), "second".to_string()]
    );
    let rules = robots.get_rules();
    assert_eq!(rules[0].user_agent, "* # not a comment line");
}

#[test]
fn crlf_lines_and_spacing() {
    let robots = RobotsTxt::parse("User-agent :  *  \r\n  Disallow :   /tmp/  \r\nSitemap:   https://a.example/s.xml\r\n");
    assert!(!robots.can_fetch("x", "/tmp/file"));
    assert_eq!(robots.get_sitemaps(), &["https://a.example/s.xml".to_string()]);
    let rule = robots.get_rule("x").unwrap();
    assert_eq!(rule.disallowed, vec!["/tmp/".to_string()]);
}

#[test]
fn value_splits_at_first_colon() {
    let robots = RobotsTxt::parse("Sitemap: https://example.com:8080/map.xml\n");
    assert_eq!(
        robots.get_sitemaps(),
        &["https://example.com:8080/map.xml".to_string()]
    );
}

#[test]
fn duplicate_sitemaps_are_preserved() {
    let robots = RobotsTxt::parse("Sitemap: /s.xml\nSitemap: /s.xml\n");
    assert_eq!(robots.get_sitemaps().len(), 2);
}

#[test]
fn domain_label_is_kept() {
    let robots = RobotsTxt::parse_with_domain("User-agent: *\nDisallow: /admin/", Some("example.com".to_string()));
    assert_eq!(robots.get_domain(), Some("example.com"));
    assert!(!robots.can_fetch("Googlebot", "/admin/panel"));
    assert!(robots.can_fetch("Googlebot", "/public/page"));
}

#[test]
fn wildcard_segments_in_order() {
    assert!(path_matches("/a/b/c", "/a*/c"));
    assert!(path_matches("/a/x/c/d", "/a*c"));
    assert!(!path_matches("/b/a", "/a*"));
    assert!(path_matches("/a", "/a*"));
    assert!(path_matches("/axbycz", "/a*b*c"));
    assert!(!path_matches("/acb", "/a*b*c"));
    assert!(path_matches("/anything", "*"));
    assert!(path_matches("/ab", "/a**b"));
    assert!(path_matches("/x$", "/x*$$"));
}

#[test]
fn domain_edge_cases() {
    assert_eq!(extract_domain("  https://host.example  "), "host.example");
    assert_eq!(extract_domain("ftp://host/x"), "ftp");
    assert_eq!(extract_domain("http://"), "");
    assert_eq!(extract_domain("localhost:8080"), "localhost");
}

#[test]
fn non_ascii_text_is_handled() {
    let robots = RobotsTxt::parse("User-agent: Émile\nDisallow: /café\u{3000}\n");
    assert!(!robots.can_fetch("ÉMILE", "/café/menu"));
    assert_eq!(robots.get_rule("émile").unwrap().disallowed, vec!["/café".to_string()]);
    // Lengths are compared in bytes: "/éé" has five, "/*a*" four.
    let robots = RobotsTxt::parse("User-agent: *\nDisallow: /*a*\nAllow: /éé\n");
    assert!(robots.can_fetch("x", "/ééa"));
    assert!(!robots.can_fetch("x", "/a"));
}

#[test]
fn token_lookup_takes_lowercase_tokens() {
    let robots =
        RobotsTxt::parse("User-agent: *\nDisallow: /y\nSitemap: /s.xml\nUser-agent: Bot\nDisallow: /x\n");
    assert!(!robots.allows("bot", "/x"));
    assert!(robots.allows("bot", "/y"));
    // The token is used as given: "Bot" is not a token of this document.
    assert!(robots.allows("Bot", "/x"));
    assert!(!robots.allows("Bot", "/y"));
    assert_eq!(robots.rule_for("bot").unwrap().user_agent, "bot");
    assert_eq!(robots.rule_for("Bot").unwrap().user_agent, "*");
    let empty = RobotsTxt::parse("");
    assert!(empty.rule_for("*").is_none());
}

#[test]
fn blank_lines_do_not_end_a_group() {
    let robots = RobotsTxt::parse("User-agent: a\nDisallow: /x\n\nUser-agent: b\nDisallow: /y\n");
    assert_eq!(robots.get_rule("a").unwrap().disallowed, vec!["/x".to_string(), "/y".to_string()]);
    assert_eq!(robots.get_rule("b").unwrap().disallowed, vec!["/y".to_string()]);
}

#[test]
fn repeated_agent_line_applies_once() {
    let robots = RobotsTxt::parse("User-agent: a\nUser-agent: A\nDisallow: /x\n");
    let rule = robots.get_rule("a").unwrap();
    assert_eq!(rule.disallowed, vec!["/x".to_string()]);
    assert!(rule.allowed.is_empty());
}

#[test]
fn directive_names_ignore_ascii_case_only() {
    let robots = RobotsTxt::parse("uSeR-aGeNt: *\nDiSaLlOw: /a\nD\u{130}SALLOW: /b\n");
    assert!(!robots.can_fetch("x", "/a"));
    assert!(robots.can_fetch("x", "/b"));
}
