use ftml::domain::{fix_slug_typos, prefix_domain, redirect_for_slug, Config, DomainService, ViewService};

fn config() -> Config {
    Config { main_domain: ".wikijump.com".to_string(), files_domain: ".wjfiles.com".to_string() }
}

#[test]
fn prefix_domain_adds_a_dot_once() {
    let mut d = "wikijump.com".to_string();
    prefix_domain(&mut d);
    assert_eq!(d, ".wikijump.com");
    prefix_domain(&mut d);
    assert_eq!(d, ".wikijump.com");
    let mut empty = String::new();
    prefix_domain(&mut empty);
    assert_eq!(empty, ".");
}

#[test]
fn canonical_domain_of_a_site() {
    assert_eq!(DomainService::get_canonical(&config(), "scp-wiki"), "scp-wiki.wikijump.com");
}

#[test]
fn parse_canonical_reads_the_slug_before_the_main_domain() {
    let c = config();
    assert_eq!(DomainService::parse_canonical(&c, "scp-wiki.wikijump.com"), Some("scp-wiki"));
    assert_eq!(DomainService::parse_canonical(&c, "foo.bar.wikijump.com"), None);
    assert_eq!(DomainService::parse_canonical(&c, ".wikijump.comfoo"), None);
    assert_eq!(DomainService::parse_canonical(&c, "scpwiki.com"), None);
    assert_eq!(DomainService::parse_canonical(&c, ".wiki"), None);
    let canonical = DomainService::get_canonical(&c, "foo");
    assert_eq!(DomainService::parse_canonical(&c, &canonical), Some("foo"));
    let dot = Config { main_domain: ".".to_string(), files_domain: ".".to_string() };
    assert_eq!(DomainService::parse_canonical(&dot, ".x"), None);
    assert_eq!(DomainService::parse_canonical(&dot, "x."), Some("x"));
}

#[test]
fn preferred_domain_and_site_redirect() {
    let c = config();
    assert_eq!(DomainService::domain_for_site(&c, "scp", None), "scp.wikijump.com");
    assert_eq!(DomainService::domain_for_site(&c, "scp", Some("scpwiki.com")), "scpwiki.com");
    assert_eq!(ViewService::should_redirect_site(&c, "scp", Some("scpwiki.com"), "scpwiki.com"), None);
    assert_eq!(
        ViewService::should_redirect_site(&c, "scp", Some("scpwiki.com"), "scp.wikijump.com"),
        Some("scpwiki.com".to_string())
    );
    assert_eq!(ViewService::should_redirect_site(&c, "scp", None, "scp.wikijump.com"), None);
}

#[test]
fn page_redirects_to_normal_slug() {
    assert_eq!(ViewService::should_redirect_page("Some Page"), Some("some-page".to_string()));
    assert_eq!(ViewService::should_redirect_page("some-page"), None);
    assert_eq!(ViewService::should_redirect_page("system;Page"), Some("system:page".to_string()));
    assert_eq!(ViewService::should_redirect_page("_default:start"), Some("start".to_string()));
}

#[test]
fn slug_typos_and_redirect_choice() {
    assert_eq!(fix_slug_typos("a;b;c"), "a:b:c");
    assert_eq!(redirect_for_slug("x", "x".to_string()), None);
    assert_eq!(redirect_for_slug("X", "x".to_string()), Some("x".to_string()));
}
