use pathcrawler::spells::{
    get_spell_name, get_spell_school, parse_spell, parse_spell_article, remove_wrapping_anchor,
    try_parse_spell, Spell,
};

fn levels_sorted(s: &Spell) -> Vec<(String, i8)> {
    let mut v = s.levels.clone();
    v.sort();
    v
}

const PAGE: &str = r#"<div class="other">x</div>
<div id="article-content">
<h1>Acid Arrow</h1>
<p><b>School</b> <a href="https://www.d20pfsrd.com/magic#TOC-Conjuration">conjuration</a> (creation) [acid, evil]; <b>Level</b> <a href="https://www.d20pfsrd.com/classes/core-classes/wizard">sorcerer/wizard</a> 2, magus 2</p>
<p>An arrow of acid.</p>
</div>"#;

#[test]
fn spell_page_is_read() {
    let spell = parse_spell(PAGE).expect("a spell");
    assert_eq!(spell.name, "Acid Arrow");
    assert_eq!(spell.school, "conjuration");
    assert_eq!(spell.subschool, "creation");
    assert_eq!(spell.descriptors, vec!["acid".to_string(), "evil".to_string()]);
    assert_eq!(
        levels_sorted(&spell),
        vec![("magus".to_string(), 2), ("sorcerer/wizard".to_string(), 2)]
    );
}

#[test]
fn spell_page_through_try() {
    let found = try_parse_spell(PAGE).expect("readable");
    assert_eq!(found.expect("a spell").name, "Acid Arrow");
}

#[test]
fn page_without_article_cannot_be_read() {
    assert!(try_parse_spell("<p>no article</p>").is_none());
}

#[test]
fn article_without_name_has_no_spell() {
    let article = "\n<p><b>School</b> <a href=\"x#TOC-Evocation\">evocation</a></p>\n";
    assert!(matches!(parse_spell_article(article), Some(None)));
}

#[test]
fn universal_school_and_default_subschool() {
    let article = "<h1>Wish</h1>\n<p><b>School</b> Universal; <b>Level</b> wizard 9</p>";
    let spell = parse_spell_article(article).unwrap().unwrap();
    assert_eq!(spell.school, "universal");
    assert_eq!(spell.subschool, "N/A");
    assert!(spell.descriptors.is_empty());
    assert_eq!(levels_sorted(&spell), vec![("wizard".to_string(), 9)]);
}

#[test]
fn unparsable_level_is_minus_one() {
    let article = "<h1>X</h1>\n<p><b>School</b> universal</p>\n<p><b>Level</b> wizard \u{663}</p>";
    let spell = parse_spell_article(article).unwrap().unwrap();
    assert_eq!(levels_sorted(&spell), vec![("wizard".to_string(), -1)]);
}

#[test]
fn later_level_replaces_earlier() {
    let article = "<h1>X</h1>\n<b>School</b> universal\n<b>Level</b> cleric 3, wizard 4\n<b>Level</b> wizard 5; druid 1";
    let spell = parse_spell_article(article).unwrap().unwrap();
    assert_eq!(
        levels_sorted(&spell),
        vec![("cleric".to_string(), 3), ("wizard".to_string(), 5)]
    );
}

#[test]
fn school_without_link_or_universal_is_missing() {
    let article = "<h1>X</h1>\n<p><b>School</b> evocation</p>";
    assert!(matches!(parse_spell_article(article), Some(None)));
}

#[test]
fn name_and_school_helpers() {
    assert_eq!(get_spell_name("<h1>Fireball</h1>"), Some(Some("Fireball".to_string())));
    assert_eq!(get_spell_name("<p>no heading</p>"), Some(None));
    assert_eq!(
        get_spell_school("<b>School</b> <a href=\"/magic#TOC-Evocation\">evocation</a> [fire]"),
        Some("evocation".to_string())
    );
    assert_eq!(get_spell_school("<b>School</b> UNIVERSAL"), Some("universal".to_string()));
    assert_eq!(get_spell_school("<b>School</b> none"), None);
}

#[test]
fn wrapping_anchor_is_removed() {
    assert_eq!(remove_wrapping_anchor("<a href=\"/x\">fire</a>"), Some("fire".to_string()));
    assert_eq!(remove_wrapping_anchor("cold"), Some("cold".to_string()));
    assert_eq!(remove_wrapping_anchor("<a href=\"/x\"></a>"), Some("<a href=\"/x\"></a>".to_string()));
}

#[test]
fn linked_descriptors_and_subschool() {
    let article = "<h1>X</h1>\n<b>School</b> universal (<a href=\"/c\">calling</a>) [<a href=\"/f\">fire</a>, <a href=\"/g\">good</a>]";
    let spell = parse_spell_article(article).unwrap().unwrap();
    assert_eq!(spell.subschool, "calling");
    assert_eq!(spell.descriptors, vec!["fire".to_string(), "good".to_string()]);
}

#[test]
fn school_link_without_text_cannot_be_read() {
    let page = "<div id=\"article-content\">\n<h1>X</h1>\n<p><b>School</b> <a href=\"/m#TOC-Evocation\"></a></p>\n</div>";
    assert!(try_parse_spell(page).is_none());
    let article = "<h1>X</h1>\n<p><b>School</b> <a href=\"/m#TOC-Evocation\"></a></p>";
    assert!(parse_spell_article(article).is_none());
}

#[test]
fn last_heading_and_school_lines_decide() {
    let article = "<h1>First</h1>\n<b>School</b> universal\n<h1>Second</h1>\n<b>School</b> <a href=\"/m#TOC-Illusion\">illusion</a>";
    let spell = parse_spell_article(article).unwrap().unwrap();
    assert_eq!(spell.name, "Second");
    assert_eq!(spell.school, "illusion");
    let article = "<h1>First</h1>\n<b>School</b> universal\n<b>School</b> none";
    assert!(matches!(parse_spell_article(article), Some(None)));
}
