use robotstxt_rs::{extract_domain, path_matches, RobotsTxt};

#[test]
fn test_basic_parsing() {
    let content = r#"
User-agent: *
Disallow: /admin/
Allow: /public/

User-agent: Googlebot
Disallow: /private/

Sitemap: https://example.com/sitemap.xml
# This is a comment
        "#;

    let robots = RobotsTxt::parse(content);

    assert!(robots.can_fetch("Mozilla", "/public/test.html"));
    assert!(!robots.can_fetch("Mozilla", "/admin/panel"));
    assert!(!robots.can_fetch("Googlebot", "/private/data"));
    assert_eq!(robots.get_sitemaps().len(), 1);
    assert_eq!(robots.get_comments().len(), 1);
}

#[test]
fn test_path_matching() {
    assert!(path_matches("/admin/test", "/admin/"));
    assert!(path_matches("/admin/", "/admin/"));
    assert!(!path_matches("/public/", "/admin/"));
    assert!(path_matches("/file.html", "/*.html"));
    assert!(path_matches("/admin/file.php", "/admin/*.php"));
    assert!(path_matches("/test.html", "/test.html$"));
    assert!(!path_matches("/test.html/more", "/test.html$"));
}

#[test]
fn test_domain_extraction() {
    assert_eq!(
        extract_domain("https://example.com/robots.txt"),
        "example.com"
    );
    assert_eq!(
        extract_domain("http://www.google.com/robots.txt"),
        "www.google.com"
    );
    assert_eq!(
        extract_domain("https://api.github.com:443/robots.txt"),
        "api.github.com"
    );
    assert_eq!(extract_domain("example.org"), "example.org");
}
