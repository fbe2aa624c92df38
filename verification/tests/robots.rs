use pathcrawler::robots::CrawlerConfig;

#[test]
fn robots_reads_paths_delay_and_sitemap() {
    let txt = "User-agent: *\r\nAllow: /magic/\r\nDisallow: /private/\r\n\r\nDisallow: /tmp/\r\ncrawl-delay: 2\r\nSitemap: https://www.d20pfsrd.com/sitemap.xml\r\n";
    let cfg = CrawlerConfig::new(txt);
    assert_eq!(cfg.allowed_paths, vec!["/magic/"]);
    assert_eq!(cfg.disallowed_paths, vec!["/private/", "/tmp/"]);
    assert_eq!(cfg.crawl_delay, 2);
    assert_eq!(cfg.sitemap_url, Some("https://www.d20pfsrd.com/sitemap.xml"));
}

#[test]
fn robots_sitemap_before_crawl_delay_is_not_found() {
    let txt = "Sitemap: https://www.d20pfsrd.com/sitemap.xml\r\ncrawl-delay: 5";
    let cfg = CrawlerConfig::new(txt);
    assert_eq!(cfg.crawl_delay, 5);
    assert_eq!(cfg.sitemap_url, None);
}

#[test]
fn robots_without_crawl_delay_has_defaults() {
    let txt = "Allow: /a\r\nSitemap: https://www.d20pfsrd.com/sitemap.xml";
    let cfg = CrawlerConfig::new(txt);
    assert_eq!(cfg.crawl_delay, 1);
    assert_eq!(cfg.sitemap_url, None);
    assert_eq!(cfg.allowed_paths, vec!["/a"]);
    assert!(cfg.disallowed_paths.is_empty());
}

#[test]
fn robots_crawl_delay_parsing() {
    assert_eq!(CrawlerConfig::new("crawl-delay: abc").crawl_delay, 1);
    assert_eq!(CrawlerConfig::new("crawl-delay: 300").crawl_delay, 1);
    assert_eq!(CrawlerConfig::new("crawl-delay: 255").crawl_delay, 255);
    assert_eq!(CrawlerConfig::new("crawl-delay: +7").crawl_delay, 7);
    assert_eq!(CrawlerConfig::new("crawl-delay: -7").crawl_delay, 1);
    assert_eq!(CrawlerConfig::new("crawl-delay: ").crawl_delay, 1);
    assert_eq!(CrawlerConfig::new("crawl-delay: 3\r\ncrawl-delay: 4").crawl_delay, 3);
}

#[test]
fn robots_prefix_removed_repeatedly() {
    let cfg = CrawlerConfig::new("Allow: Allow: /x\r\nDisallow: Disallow: ");
    assert_eq!(cfg.allowed_paths, vec!["/x"]);
    assert_eq!(cfg.disallowed_paths, vec![""]);
}

#[test]
fn robots_lines_split_only_on_crlf() {
    let cfg = CrawlerConfig::new("Allow: /a\nAllow: /b\r\n\n\r\nAllow: /c");
    assert_eq!(cfg.allowed_paths, vec!["/a\nAllow: /b", "/c"]);
}

#[test]
fn robots_sitemap_after_crawl_delay_line() {
    let txt = "crawl-delay: 1\r\nAllow: /x\r\nSitemap: one.xml\r\nSitemap: two.xml";
    let cfg = CrawlerConfig::new(txt);
    assert_eq!(cfg.sitemap_url, Some("one.xml"));
}
