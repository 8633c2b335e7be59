use digg::doh::{provider_names, providers, resolve_doh_url};

#[test]
fn known_providers_resolve_case_insensitively() {
    assert_eq!(resolve_doh_url(""), "https://1.1.1.1/dns-query");
    assert_eq!(resolve_doh_url("Cloudflare"), "https://1.1.1.1/dns-query");
    assert_eq!(resolve_doh_url("GOOGLE"), "https://dns.google/dns-query");
    assert_eq!(
        resolve_doh_url("quad9"),
        "https://dns.quad9.net:5053/dns-query"
    );
    assert_eq!(
        resolve_doh_url("opendns"),
        "https://doh.opendns.com/dns-query"
    );
    assert_eq!(
        resolve_doh_url("cisco"),
        "https://doh.opendns.com/dns-query"
    );
}

#[test]
fn unknown_input_falls_back_to_url_or_host() {
    assert_eq!(
        resolve_doh_url("https://example.net/custom"),
        "https://example.net/custom"
    );
    assert_eq!(
        resolve_doh_url("doh.example.net"),
        "https://doh.example.net/dns-query"
    );
}

#[test]
fn every_provider_has_a_primary_name_and_https_url() {
    let providers = providers();
    for p in &providers {
        assert!(p.url.starts_with("https://"), "{}", p.url);
        assert!(p.names.iter().any(|n| !n.is_empty()));
    }
    assert_eq!(provider_names().len(), providers.len());
}
