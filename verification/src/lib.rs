//! A crawler of the d20pfsrd rules site: the reading of `robots.txt`, the links of
//! sitemaps and pages, the reading of spell pages, and the decisions of the crawl.

pub mod crawl;
pub mod links;
pub mod pattern;
pub mod robots;
pub mod scrape;
pub mod sitemap;
pub mod spells;
pub mod text;
pub mod url_set;

pub use links::get_links_from_html;
pub use sitemap::get_links_from_xml;
