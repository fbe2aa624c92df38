use pathcrawler::links::{
    allowed_extension, get_links_from_html, is_xml, normalize_url, try_get_links_from_html,
};
use pathcrawler::sitemap::{get_links_from_xml, try_get_links_from_xml, xml_loc_texts};

#[test]
fn normalize_absolute_url_on_site() {
    assert_eq!(
        normalize_url("https://www.d20pfsrd.com/magic/all-spells/a/acid-arrow#TOC-Effect"),
        Some("https://www.d20pfsrd.com/magic/all-spells/a/acid-arrow".to_string())
    );
    assert_eq!(
        normalize_url("https://www.d20pfsrd.com/a#b#c"),
        Some("https://www.d20pfsrd.com/a".to_string())
    );
}

#[test]
fn normalize_off_site_url() {
    assert_eq!(normalize_url("https://example.com/magic/"), None);
    assert_eq!(normalize_url("mailto:someone@example.com"), None);
}

#[test]
fn normalize_relative_reference() {
    assert_eq!(
        normalize_url("/magic/foo#bar"),
        Some("https://www.d20pfsrd.com/magic/foo".to_string())
    );
    assert_eq!(normalize_url("magic/foo"), None);
    assert_eq!(normalize_url("#top"), None);
}

#[test]
fn extension_filter() {
    assert!(allowed_extension(&"https://www.d20pfsrd.com/sitemap.xml"));
    assert!(allowed_extension(&"https://www.d20pfsrd.com/magic/"));
    assert!(allowed_extension(&"/magic/all-spells"));
    assert!(!allowed_extension(&"https://www.d20pfsrd.com/book.pdf"));
    assert!(!allowed_extension(&"https://www.d20pfsrd.com"));
}

#[test]
fn xml_suffix() {
    assert!(is_xml("https://www.d20pfsrd.com/sitemap.xml"));
    assert!(is_xml("xml"));
    assert!(!is_xml("https://www.d20pfsrd.com/page.html"));
    assert!(!is_xml("xm"));
}

#[test]
fn html_links_are_filtered_normalised_and_distinct() {
    let html = r#"<p><a href="/magic/all-spells/a/acid-arrow#x">A</a>
        <a href="https://example.com/">B</a><a>no href</a>
        <a href="https://www.d20pfsrd.com/book.pdf">C</a>
        <a href="https://www.d20pfsrd.com/magic/all-spells/a/acid-arrow">D</a>
        <a href="/sitemap.xml">E</a></p>"#;
    let links = get_links_from_html(html);
    let mut v = links.to_vec();
    v.sort();
    assert_eq!(
        v,
        vec![
            "https://www.d20pfsrd.com/magic/all-spells/a/acid-arrow".to_string(),
            "https://www.d20pfsrd.com/sitemap.xml".to_string(),
        ]
    );
    assert_eq!(links.len(), 2);
}

#[test]
fn html_without_links() {
    let links = try_get_links_from_html("<p>nothing here</p>").unwrap();
    assert!(links.is_empty());
}

#[test]
fn xml_loc_texts_in_order() {
    let xml = "<urlset><url><loc> https://www.d20pfsrd.com/magic/ </loc></url><loc>a&amp;b</loc><other>x</other></urlset>";
    assert_eq!(
        xml_loc_texts(xml),
        Some(vec!["https://www.d20pfsrd.com/magic/".to_string(), "a&b".to_string()])
    );
}

#[test]
fn xml_links_of_a_sitemap() {
    let xml = r#"<?xml version="1.0" encoding="UTF-8"?>
<urlset>
  <url><loc>https://www.d20pfsrd.com/magic/</loc></url>
  <url><loc>https://www.d20pfsrd.com/sitemap-2.xml</loc></url>
  <url><loc>https://other.example.com/</loc></url>
  <url><loc>https://www.d20pfsrd.com/magic/#again</loc></url>
  <url><lastmod>2020</lastmod></url>
</urlset>"#;
    let links = get_links_from_xml(xml);
    let mut v = links.to_vec();
    v.sort();
    assert_eq!(
        v,
        vec![
            "https://www.d20pfsrd.com/magic/".to_string(),
            "https://www.d20pfsrd.com/sitemap-2.xml".to_string(),
        ]
    );
}

#[test]
fn xml_with_syntax_error_is_refused() {
    assert!(try_get_links_from_xml("<urlset><loc>x</a></urlset>").is_none());
    assert!(xml_loc_texts("<urlset><loc>x</a></urlset>").is_none());
}

#[test]
fn xml_with_bad_escape_in_loc_is_refused() {
    assert!(try_get_links_from_xml("<loc>&bogus;</loc>").is_none());
    // Outside `loc` the text is not unescaped, so a bad escape there does no harm.
    let links = try_get_links_from_xml("<x>&bogus;</x>").unwrap();
    assert!(links.is_empty());
}
