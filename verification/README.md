# pathcrawler

A crawler of the d20pfsrd rules site that follows the links from the site's sitemap
onto its magic pages and logs every spell it reads.

`src/` is the library, verified with Verus:

- `text`: character-level text operations (split, trim, prefix and suffix tests, number
  parsing) stated over `Seq<char>`;
- `url_set`: a set of URLs kept without duplicates, with the operations of the crawl frontier;
- `robots`: the reading of `robots.txt` into a `CrawlerConfig`;
- `links`: the extension filter, the normalisation of references onto the site, and the links
  of an HTML page;
- `sitemap`: the `loc` texts of an XML sitemap and its links;
- `spells`: the reading of a spell page (name, school, subschool, descriptors, class levels);
- `crawl`: which URLs are visited, the kind of each page, retries and the delay between fetches;
- `scrape`, `pattern`: what `scraper` and `regex` find, handed over as plain values.

`app/` is the program: HTTP fetching with `reqwest`, the log files, and the crawl loop.
