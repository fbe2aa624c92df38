//! Reading a spell page: its name, school, subschool, descriptors and class levels.
//!
//! Where the page's HTML and a few fixed selectors and patterns are read with `scraper` and
//! `regex`, the results are named (see `scrape` and `pattern`); everything done with them is
//! stated here. A reading that cannot go on (a selector or pattern that does not compile, a
//! page without article, a school link without text, a missing capture group) is an outcome
//! of its own: the `None` of the outer `Option` in each specification.

use vstd::prelude::*;

use crate::pattern::{all_captures, find_first, regex_captures, regex_first_match};
use crate::scrape::{scraped_first_text, scraped_inner_html, select_first_text, select_inner_html};
use crate::text::{
    chars_of, has_infix, has_infix_exec, has_prefix, has_prefix_exec, lemma_split_len, lowercase,
    parse_i8, parse_i8_text, split, split_pieces, split_strings, string_views, to_lowercase, trim,
    trim_chars, trim_string, trim_vec, views, Strip,
};

verus! {

broadcast use vstd::string::group_string_axioms;

/// The pattern of a subschool in parentheses.
pub const SUBSCHOOL_PATTERN: &'static str = "\\([\\w>< =\"'/]+\\)";

/// The pattern of a bracketed list of descriptors.
pub const DESCRIPTORS_PATTERN: &'static str = "\\[[\\w>< =\"'/,]+\\]";

/// The pattern of one class and its level, the class either linked or plain.
pub const LEVELS_PATTERN: &'static str = "((<a[ :\\w\"/.=-]+>[\\w/ ]+</a+>)|([\\w/ ]+)) (\\d{1,2})(, )?";

/// The selector of links to the eight schools of magic (Abjuration, Conjuration,
/// Divination, Enchantment, Evocation, Illusion, Necromancy, Transmutation).
pub const SCHOOL_SELECTOR: &'static str = "a[href*=\"#TOC-Abjuration\"], a[href*=\"#TOC-Conjuration\"], a[href*=\"#TOC-Divination\"], a[href*=\"#TOC-Enchantment\"], a[href*=\"#TOC-Evocation\"], a[href*=\"#TOC-Illusion\"], a[href*=\"#TOC-Necromancy\"], a[href*=\"#TOC-Transmutation\"]";

/// The text of a fragment without a wrapping link: the first text of its first `a` element,
/// or the fragment itself where there is no such element or text.
pub open spec fn anchor_text_of(s: Seq<char>) -> Option<Seq<char>> {
    match scraped_first_text(s, "a"@) {
        None => None,
        Some(None) => Some(s),
        Some(Some(None)) => Some(s),
        Some(Some(Some(t))) => Some(t),
    }
}

/// The text of each fragment without a wrapping link.
pub open spec fn anchor_texts(ps: Seq<Seq<char>>) -> Option<Seq<Seq<char>>>
    decreases ps.len(),
{
    if ps.len() == 0 {
        Some(seq![])
    } else {
        match (anchor_texts(ps.drop_last()), anchor_text_of(ps.last())) {
            (Some(done), Some(t)) => Some(done.push(t)),
            _ => None,
        }
    }
}

/// The spell name in a heading line: the first text of its first `h1` element.
pub open spec fn spell_name_of(line: Seq<char>) -> Option<Option<Seq<char>>> {
    match scraped_first_text(line, "h1"@) {
        None => None,
        Some(None) => Some(None),
        Some(Some(t)) => Some(t),
    }
}

/// The school in a school line: the text of the first link to a school of magic; else
/// `universal` where the line, in lower case, mentions it.
pub open spec fn spell_school_of(line: Seq<char>) -> Option<Option<Seq<char>>> {
    match scraped_first_text(line, SCHOOL_SELECTOR@) {
        None => None,
        Some(Some(None)) => None,
        Some(Some(Some(t))) => Some(Some(t)),
        Some(None) => if has_infix(lowercase(line), "universal"@) {
            Some(Some("universal"@))
        } else {
            Some(None)
        },
    }
}

/// What the reading of a spell page has found so far.
pub struct SpellNotes {
    pub name: Option<Seq<char>>,
    pub school: Option<Seq<char>>,
    pub subschool: Option<Seq<char>>,
    pub descriptors: Seq<Seq<char>>,
    pub levels: Map<Seq<char>, i8>,
}

/// Nothing found yet.
pub open spec fn no_notes() -> SpellNotes {
    SpellNotes {
        name: None,
        school: None,
        subschool: None,
        descriptors: seq![],
        levels: Map::empty(),
    }
}

/// A line that starts with `<h1>` sets the name.
pub open spec fn read_name(st: SpellNotes, line: Seq<char>) -> Option<SpellNotes> {
    if !has_prefix(line, "<h1>"@) {
        Some(st)
    } else {
        match spell_name_of(line) {
            Some(n) => Some(
                SpellNotes {
                    name: n,
                    school: st.school,
                    subschool: st.subschool,
                    descriptors: st.descriptors,
                    levels: st.levels,
                },
            ),
            None => None,
        }
    }
}

/// The subschool in a school line, given the match of the subschool pattern: the match
/// without its parentheses and wrapping link; the earlier subschool where nothing matches.
pub open spec fn subschool_of(earlier: Option<Seq<char>>, m: Option<Seq<char>>) -> Option<
    Option<Seq<char>>,
> {
    match m {
        None => Some(earlier),
        Some(t) => match anchor_text_of(trim_chars(t, Strip::Parens)) {
            Some(a) => Some(Some(a)),
            None => None,
        },
    }
}

/// The descriptors in a school line, given the match of the descriptors pattern: the
/// comma-separated items inside the brackets, trimmed and without wrapping links; the earlier
/// descriptors where nothing matches.
pub open spec fn descriptors_of(earlier: Seq<Seq<char>>, m: Option<Seq<char>>) -> Option<
    Seq<Seq<char>>,
> {
    match m {
        None => Some(earlier),
        Some(t) => anchor_texts(
            split(trim_chars(t, Strip::Brackets), ","@).map_values(|x: Seq<char>| trim(x)),
        ),
    }
}

/// A line that holds `<b>School</b>` sets the school, and the subschool and descriptors
/// where it names them.
pub open spec fn read_school(st: SpellNotes, line: Seq<char>) -> Option<SpellNotes> {
    if !has_infix(line, "<b>School</b>"@) {
        Some(st)
    } else {
        match (
            spell_school_of(line),
            regex_first_match(SUBSCHOOL_PATTERN@, line),
            regex_first_match(DESCRIPTORS_PATTERN@, line),
        ) {
            (Some(school), Some(sub), Some(desc)) => match (
                subschool_of(st.subschool, sub),
                descriptors_of(st.descriptors, desc),
            ) {
                (Some(subschool), Some(descriptors)) => Some(
                    SpellNotes {
                        name: st.name,
                        school: school,
                        subschool: subschool,
                        descriptors: descriptors,
                        levels: st.levels,
                    },
                ),
                _ => None,
            },
            _ => None,
        }
    }
}

/// The class and level of one match of the levels pattern: group 1 without its wrapping
/// link, and group 4 as a number (-1 where it is not an `i8`).
pub open spec fn level_entry(groups: Seq<Option<Seq<char>>>) -> Option<(Seq<char>, i8)> {
    if groups.len() > 4 && groups[1] is Some && groups[4] is Some {
        match anchor_text_of(groups[1]->0) {
            Some(class) => Some(
                (
                    class,
                    match parse_i8_text(groups[4]->0) {
                        Some(n) => n,
                        None => -1i8,
                    },
                ),
            ),
            None => None,
        }
    } else {
        None
    }
}

/// The classes and levels of all matches of the levels pattern, in order.
pub open spec fn level_entries(caps: Seq<Seq<Option<Seq<char>>>>) -> Option<
    Seq<(Seq<char>, i8)>,
>
    decreases caps.len(),
{
    if caps.len() == 0 {
        Some(seq![])
    } else {
        match (level_entries(caps.drop_last()), level_entry(caps.last())) {
            (Some(done), Some(e)) => Some(done.push(e)),
            _ => None,
        }
    }
}

/// `m` with the entries `es` inserted in order, a later entry replacing an earlier one.
pub open spec fn insert_all(m: Map<Seq<char>, i8>, es: Seq<(Seq<char>, i8)>) -> Map<
    Seq<char>,
    i8,
>
    decreases es.len(),
{
    if es.len() == 0 {
        m
    } else {
        insert_all(m, es.drop_last()).insert(es.last().0, es.last().1)
    }
}

/// The text of the levels in a level line: after the first `<b>Level</b>`, up to the first
/// `;`, trimmed.
pub open spec fn levels_text(line: Seq<char>) -> Seq<char> {
    trim(split(split(line, "<b>Level</b>"@)[1], ";"@)[0])
}

/// A line that holds `<b>Level</b>` adds its classes and levels.
pub open spec fn read_levels(st: SpellNotes, line: Seq<char>) -> Option<SpellNotes> {
    if !has_infix(line, "<b>Level</b>"@) {
        Some(st)
    } else {
        match regex_captures(LEVELS_PATTERN@, levels_text(line)) {
            Some(caps) => match level_entries(caps) {
                Some(es) => Some(
                    SpellNotes {
                        name: st.name,
                        school: st.school,
                        subschool: st.subschool,
                        descriptors: st.descriptors,
                        levels: insert_all(st.levels, es),
                    },
                ),
                None => None,
            },
            None => None,
        }
    }
}

/// What one line of the article adds.
pub open spec fn read_line(st: SpellNotes, line: Seq<char>) -> Option<SpellNotes> {
    match read_name(st, line) {
        Some(st1) => match read_school(st1, line) {
            Some(st2) => read_levels(st2, line),
            None => None,
        },
        None => None,
    }
}

/// What the lines of an article give, each line trimmed.
pub open spec fn read_lines(lines: Seq<Seq<char>>) -> Option<SpellNotes>
    decreases lines.len(),
{
    if lines.len() == 0 {
        Some(no_notes())
    } else {
        match read_lines(lines.drop_last()) {
            Some(st) => read_line(st, trim(lines.last())),
            None => None,
        }
    }
}

/// A spell as the page gives it.
pub struct SpellRecord {
    pub name: Seq<char>,
    pub school: Seq<char>,
    pub subschool: Seq<char>,
    pub descriptors: Seq<Seq<char>>,
    pub levels: Map<Seq<char>, i8>,
}

/// The spell in an article: its lines are the pieces between newlines; a spell needs a
/// name and a school, and has the subschool `N/A` where none is found.
pub open spec fn article_spell(article: Seq<char>) -> Option<Option<SpellRecord>> {
    match read_lines(split(article, "\n"@)) {
        None => None,
        Some(st) => match (st.name, st.school) {
            (Some(n), Some(s)) => Some(
                Some(
                    SpellRecord {
                        name: n,
                        school: s,
                        subschool: match st.subschool {
                            Some(ss) => ss,
                            None => "N/A"@,
                        },
                        descriptors: st.descriptors,
                        levels: st.levels,
                    },
                ),
            ),
            _ => Some(None),
        },
    }
}

/// The spell on a page: in the inner HTML of its `#article-content` element.
pub open spec fn page_spell(html: Seq<char>) -> Option<Option<SpellRecord>> {
    match scraped_inner_html(html, "#article-content"@) {
        Some(Some(article)) => article_spell(article),
        _ => None,
    }
}

/// The views of class and level pairs.
pub open spec fn level_views(v: Seq<(String, i8)>) -> Seq<(Seq<char>, i8)> {
    v.map_values(|e: (String, i8)| (e.0@, e.1))
}

/// `es` lists the entries of `m`, each key once.
pub open spec fn lists_map(es: Seq<(Seq<char>, i8)>, m: Map<Seq<char>, i8>) -> bool {
    &&& es.map_values(|e: (Seq<char>, i8)| e.0).no_duplicates()
    &&& m.dom() == es.map_values(|e: (Seq<char>, i8)| e.0).to_set()
    &&& forall|i: int| 0 <= i < es.len() ==> #[trigger] m[es[i].0] == es[i].1
}

/// A spell.
pub struct Spell {
    pub name: String,
    pub school: String,
    pub subschool: String,
    pub descriptors: Vec<String>,
    /// Each class once, with its level.
    pub levels: Vec<(String, i8)>,
}

/// `s` holds the spell `r`.
pub open spec fn spell_holds(s: Spell, r: SpellRecord) -> bool {
    &&& s.name@ == r.name
    &&& s.school@ == r.school
    &&& s.subschool@ == r.subschool
    &&& string_views(s.descriptors@) == r.descriptors
    &&& lists_map(level_views(s.levels@), r.levels)
}

/// The text of a fragment without a wrapping link (`None` where the selector `a` does
/// not parse).
pub fn remove_wrapping_anchor(slice: &str) -> (r: Option<String>)
    ensures
        r.deep_view() == anchor_text_of(slice@),
{
    match select_first_text(slice, "a") {
        None => None,
        Some(None) => Some(String::from_str(slice)),
        Some(Some(None)) => Some(String::from_str(slice)),
        Some(Some(Some(t))) => Some(t),
    }
}

/// The spell name in a heading line.
pub fn get_spell_name(line: &str) -> (r: Option<Option<String>>)
    ensures
        r.deep_view() == spell_name_of(line@),
{
    match select_first_text(line, "h1") {
        None => None,
        Some(None) => Some(None),
        Some(Some(t)) => Some(t),
    }
}

/// The school in a school line, or the outer `None` where the reading cannot go on (the
/// school selector does not parse, or the first school link has no text).
fn school_of_line(line: &str) -> (r: Option<Option<String>>)
    ensures
        r.deep_view() == spell_school_of(line@),
{
    match select_first_text(line, SCHOOL_SELECTOR) {
        None => None,
        Some(Some(None)) => None,
        Some(Some(Some(t))) => Some(Some(t)),
        Some(None) => {
            let lower = to_lowercase(line);
            if has_infix_exec(&chars_of(lower.as_str()), &chars_of("universal")) {
                Some(Some(String::from_str("universal")))
            } else {
                Some(None)
            }
        },
    }
}

/// The school in a school line: the text of its first link to a school of magic, else
/// `universal` where the line mentions it in any case. A line whose first school link has
/// no text is left out.
pub fn get_spell_school(line: &str) -> (r: Option<String>)
    requires
        spell_school_of(line@) is Some,
    ensures
        r.deep_view() == spell_school_of(line@)->0,
{
    match school_of_line(line) {
        Some(s) => s,
        None => None,
    }
}

/// The text of each fragment without a wrapping link.
fn remove_wrapping_anchors(ps: &Vec<String>) -> (r: Option<Vec<String>>)
    ensures
        match r {
            Some(v) => anchor_texts(string_views(ps@)) == Some(string_views(v@)),
            None => anchor_texts(string_views(ps@)) is None,
        },
{
    let ghost all = string_views(ps@);
    let mut out: Vec<String> = Vec::new();
    let mut i: usize = 0;
    while i < ps.len()
        invariant
            i <= ps@.len(),
            all == string_views(ps@),
            anchor_texts(all.take(i as int)) == Some(string_views(out@)),
        decreases ps.len() - i,
    {
        assert(all.take(i + 1).drop_last() =~= all.take(i as int));
        assert(all.take(i + 1).last() == ps@[i as int]@);
        match remove_wrapping_anchor(ps[i].as_str()) {
            Some(t) => {
                let ghost before = out@;
                out.push(t);
                assert(string_views(out@) =~= string_views(before).push(out@.last()@));
            },
            None => {
                proof {
                    lemma_anchor_texts_none(all, i as int);
                }
                return None;
            },
        }
        i += 1;
    }
    assert(all.take(i as int) =~= all);
    Some(out)
}

/// Once a fragment has no text, neither has any longer list of fragments.
proof fn lemma_anchor_texts_none(ps: Seq<Seq<char>>, i: int)
    requires
        0 <= i < ps.len(),
        anchor_texts(ps.take(i + 1)) is None,
    ensures
        anchor_texts(ps) is None,
    decreases ps.len() - i,
{
    if i + 1 < ps.len() {
        assert(ps.take(i + 2).drop_last() =~= ps.take(i + 1));
        lemma_anchor_texts_none(ps, i + 1);
    } else {
        assert(ps.take(i + 1) =~= ps);
    }
}

/// The subschool that a match of the subschool pattern gives.
fn subschool_from(m: &str) -> (r: Option<String>)
    ensures
        r.deep_view() == anchor_text_of(trim_chars(m@, Strip::Parens)),
{
    let t = trim_string(&chars_of(m), Strip::Parens);
    remove_wrapping_anchor(t.as_str())
}

/// The descriptors that a match of the descriptors pattern gives.
fn descriptors_from(m: &str) -> (r: Option<Vec<String>>)
    ensures
        match r {
            Some(v) => descriptors_of(seq![], Some(m@)) == Some(string_views(v@)),
            None => descriptors_of(seq![], Some(m@)) is None,
        },
{
    let inner = trim_vec(&chars_of(m), Strip::Brackets);
    let comma = vec![','];
    proof {
        reveal_strlit(",");
        assert(comma@ =~= ","@);
    }
    let pieces = split_pieces(&inner, &comma);
    let ghost all = split(inner@, ","@);
    let mut items: Vec<String> = Vec::new();
    let mut i: usize = 0;
    while i < pieces.len()
        invariant
            i <= pieces@.len(),
            views(pieces@) == all,
            string_views(items@) == all.take(i as int).map_values(|x: Seq<char>| trim(x)),
        decreases pieces.len() - i,
    {
        assert(views(pieces@)[i as int] == pieces@[i as int]@);
        let t = trim_string(&pieces[i], Strip::WhiteSpace);
        let ghost before = items@;
        let ghost tv = t@;
        items.push(t);
        assert(string_views(items@) =~= string_views(before).push(tv));
        assert(all.take(i + 1).map_values(|x: Seq<char>| trim(x)) =~= all.take(i as int).map_values(
            |x: Seq<char>| trim(x),
        ).push(trim(all[i as int])));
        assert(string_views(items@) =~= all.take(i + 1).map_values(|x: Seq<char>| trim(x)));
        i += 1;
    }
    assert(all.take(i as int) =~= all);
    remove_wrapping_anchors(&items)
}

/// What the reading of a spell page has found so far, as values.
struct Notes {
    name: Option<String>,
    school: Option<String>,
    subschool: Option<String>,
    descriptors: Vec<String>,
    levels: Vec<(String, i8)>,
}

/// `n` holds what `st` says was found.
spec fn notes_hold(n: Notes, st: SpellNotes) -> bool {
    &&& n.name.deep_view() == st.name
    &&& n.school.deep_view() == st.school
    &&& n.subschool.deep_view() == st.subschool
    &&& string_views(n.descriptors@) == st.descriptors
    &&& lists_map(level_views(n.levels@), st.levels)
}

/// Sets `class` to `level` among the listed levels.
fn insert_level(levels: &mut Vec<(String, i8)>, class: String, level: i8, Ghost(m): Ghost<
    Map<Seq<char>, i8>,
>)
    requires
        lists_map(level_views(old(levels)@), m),
    ensures
        lists_map(level_views(final(levels)@), m.insert(class@, level)),
{
    let ghost es = level_views(levels@);
    let ghost keys = es.map_values(|e: (Seq<char>, i8)| e.0);
    let mut i: usize = 0;
    while i < levels.len()
        invariant
            i <= levels@.len(),
            es == level_views(levels@),
            keys == es.map_values(|e: (Seq<char>, i8)| e.0),
            lists_map(es, m),
            forall|j: int| 0 <= j < i ==> keys[j] != class@,
        decreases levels.len() - i,
    {
        if levels[i].0 == class {
            assert(keys[i as int] == class@);
            levels.set(i, (class, level));
            let ghost es2 = level_views(levels@);
            let ghost keys2 = es2.map_values(|e: (Seq<char>, i8)| e.0);
            assert(keys2 =~= keys);
            assert forall|j: int| 0 <= j < es2.len() implies #[trigger] m.insert(
                class@,
                level,
            )[es2[j].0] == es2[j].1 by {
                if j != i {
                    assert(es2[j] == es[j]);
                    assert(keys[j] != keys[i as int]);
                }
            }
            assert(m.insert(class@, level).dom() =~= keys2.to_set()) by {
                assert(keys.contains(class@));
            }
            return;
        }
        i += 1;
    }
    let ghost cv = class@;
    levels.push((class, level));
    let ghost es2 = level_views(levels@);
    let ghost keys2 = es2.map_values(|e: (Seq<char>, i8)| e.0);
    assert(es2 =~= es.push((cv, level)));
    assert(keys2 =~= keys.push(cv));
    assert(!keys.contains(cv));
    proof {
        keys.lemma_push_to_set_commute(cv);
    }
    assert forall|j: int| 0 <= j < es2.len() implies #[trigger] m.insert(cv, level)[es2[j].0]
        == es2[j].1 by {
        if j < es.len() {
            assert(es2[j] == es[j]);
            assert(keys[j] != cv);
        }
    }
    assert(m.insert(cv, level).dom() =~= keys2.to_set());
}

/// The result of a step of the reading, against the step's specification.
spec fn step_holds(r: Option<Notes>, spec_r: Option<SpellNotes>) -> bool {
    match r {
        Some(n) => spec_r is Some && notes_hold(n, spec_r->0),
        None => spec_r is None,
    }
}

/// A line that starts with `<h1>` sets the name.
fn read_name_line(n: Notes, line: &str, lv: &Vec<char>, Ghost(st): Ghost<SpellNotes>) -> (r:
    Option<Notes>)
    requires
        notes_hold(n, st),
        lv@ == line@,
    ensures
        step_holds(r, read_name(st, line@)),
{
    let h1 = chars_of("<h1>");
    if !has_prefix_exec(lv, &h1) {
        return Some(n);
    }
    match get_spell_name(line) {
        Some(name) => Some(
            Notes {
                name,
                school: n.school,
                subschool: n.subschool,
                descriptors: n.descriptors,
                levels: n.levels,
            },
        ),
        None => None,
    }
}

/// A line that holds `<b>School</b>` sets the school, and the subschool and descriptors
/// where it names them.
fn read_school_line(n: Notes, line: &str, lv: &Vec<char>, Ghost(st): Ghost<SpellNotes>) -> (r:
    Option<Notes>)
    requires
        notes_hold(n, st),
        lv@ == line@,
    ensures
        step_holds(r, read_school(st, line@)),
{
    if !has_infix_exec(lv, &chars_of("<b>School</b>")) {
        return Some(n);
    }
    let school = match school_of_line(line) {
        Some(_) => get_spell_school(line),
        None => return None,
    };
    let sub = find_first(SUBSCHOOL_PATTERN, line);
    let desc = find_first(DESCRIPTORS_PATTERN, line);
    let subschool = match sub {
        None => return None,
        Some(None) => n.subschool,
        Some(Some(m)) => match subschool_from(m.as_str()) {
            Some(a) => Some(a),
            None => return None,
        },
    };
    let descriptors = match desc {
        None => return None,
        Some(None) => n.descriptors,
        Some(Some(m)) => match descriptors_from(m.as_str()) {
            Some(d) => d,
            None => return None,
        },
    };
    Some(Notes { name: n.name, school, subschool, descriptors, levels: n.levels })
}

/// The class and level of one match of the levels pattern.
fn level_entry_of(groups: &Vec<Option<String>>) -> (r: Option<(String, i8)>)
    ensures
        match r {
            Some(e) => level_entry(groups.deep_view()) == Some((e.0@, e.1)),
            None => level_entry(groups.deep_view()) is None,
        },
{
    if groups.len() <= 4 {
        return None;
    }
    match (&groups[1], &groups[4]) {
        (Some(class), Some(level)) => match remove_wrapping_anchor(class.as_str()) {
            Some(c) => {
                let l = match parse_i8(level.as_str()) {
                    Some(x) => x,
                    None => -1i8,
                };
                Some((c, l))
            },
            None => None,
        },
        _ => None,
    }
}

/// Once an entry is missing, the entries of any longer list of matches are missing.
proof fn lemma_level_entries_none(caps: Seq<Seq<Option<Seq<char>>>>, i: int)
    requires
        0 <= i < caps.len(),
        level_entries(caps.take(i + 1)) is None,
    ensures
        level_entries(caps) is None,
    decreases caps.len() - i,
{
    if i + 1 < caps.len() {
        assert(caps.take(i + 2).drop_last() =~= caps.take(i + 1));
        lemma_level_entries_none(caps, i + 1);
    } else {
        assert(caps.take(i + 1) =~= caps);
    }
}

/// The classes and levels of all matches of the levels pattern.
fn level_entries_of(caps: &Vec<Vec<Option<String>>>) -> (r: Option<Vec<(String, i8)>>)
    ensures
        match r {
            Some(v) => level_entries(caps.deep_view()) == Some(level_views(v@)),
            None => level_entries(caps.deep_view()) is None,
        },
{
    let ghost all = caps.deep_view();
    let mut out: Vec<(String, i8)> = Vec::new();
    let mut i: usize = 0;
    while i < caps.len()
        invariant
            i <= caps@.len(),
            all == caps.deep_view(),
            level_entries(all.take(i as int)) == Some(level_views(out@)),
        decreases caps.len() - i,
    {
        assert(all.take(i + 1).drop_last() =~= all.take(i as int));
        assert(all.take(i + 1).last() == caps@[i as int].deep_view());
        match level_entry_of(&caps[i]) {
            Some(e) => {
                let ghost before = out@;
                let ghost ev = (e.0@, e.1);
                out.push(e);
                assert(level_views(out@) =~= level_views(before).push(ev));
            },
            None => {
                proof {
                    lemma_level_entries_none(all, i as int);
                }
                return None;
            },
        }
        i += 1;
    }
    assert(all.take(i as int) =~= all);
    Some(out)
}

/// The text of the levels in a level line.
fn levels_text_of(lv: &Vec<char>) -> (r: String)
    requires
        has_infix(lv@, "<b>Level</b>"@),
    ensures
        r@ == levels_text(lv@),
{
    let sep = chars_of("<b>Level</b>");
    let semi = vec![';'];
    proof {
        reveal_strlit("<b>Level</b>");
        reveal_strlit(";");
        assert(semi@ =~= ";"@);
        lemma_split_len(lv@, sep@);
    }
    let parts = split_pieces(lv, &sep);
    assert(views(parts@)[1] == parts@[1]@);
    let rest = split_pieces(&parts[1], &semi);
    proof {
        lemma_split_len(parts@[1]@, semi@);
    }
    assert(views(rest@)[0] == rest@[0]@);
    trim_string(&rest[0], Strip::WhiteSpace)
}

/// A line that holds `<b>Level</b>` adds its classes and levels.
fn read_levels_line(n: Notes, lv: &Vec<char>, Ghost(st): Ghost<SpellNotes>) -> (r: Option<Notes>)
    requires
        notes_hold(n, st),
    ensures
        step_holds(r, read_levels(st, lv@)),
{
    if !has_infix_exec(lv, &chars_of("<b>Level</b>")) {
        return Some(n);
    }
    let text = levels_text_of(lv);
    let caps = match all_captures(LEVELS_PATTERN, text.as_str()) {
        Some(c) => c,
        None => return None,
    };
    let entries = match level_entries_of(&caps) {
        Some(e) => e,
        None => return None,
    };
    let ghost es = level_views(entries@);
    let mut levels = n.levels;
    let mut i: usize = 0;
    while i < entries.len()
        invariant
            i <= entries@.len(),
            es == level_views(entries@),
            lists_map(level_views(levels@), insert_all(st.levels, es.take(i as int))),
        decreases entries.len() - i,
    {
        assert(es.take(i + 1).drop_last() =~= es.take(i as int));
        let class = entries[i].0.clone();
        let level = entries[i].1;
        assert(es[i as int] == (class@, level));
        insert_level(&mut levels, class, level, Ghost(insert_all(st.levels, es.take(i as int))));
        i += 1;
    }
    assert(es.take(i as int) =~= es);
    Some(
        Notes {
            name: n.name,
            school: n.school,
            subschool: n.subschool,
            descriptors: n.descriptors,
            levels,
        },
    )
}

/// What one (trimmed) line of the article adds.
fn read_article_line(n: Notes, line: &str, Ghost(st): Ghost<SpellNotes>) -> (r: Option<Notes>)
    requires
        notes_hold(n, st),
    ensures
        step_holds(r, read_line(st, line@)),
{
    let lv = chars_of(line);
    let n1 = match read_name_line(n, line, &lv, Ghost(st)) {
        Some(x) => x,
        None => return None,
    };
    let ghost st1 = read_name(st, line@)->0;
    let n2 = match read_school_line(n1, line, &lv, Ghost(st1)) {
        Some(x) => x,
        None => return None,
    };
    let ghost st2 = read_school(st1, line@)->0;
    read_levels_line(n2, &lv, Ghost(st2))
}

/// `r` is the spell `o`, or no spell where `o` is none.
pub open spec fn spell_found(r: Option<Spell>, o: Option<SpellRecord>) -> bool {
    match r {
        Some(s) => o is Some && spell_holds(s, o->0),
        None => o is None,
    }
}

/// The spell in the inner HTML of a spell page's article: `None` where the reading cannot go
/// on, `Some(None)` where the article names no spell or no school.
pub fn parse_spell_article(article: &str) -> (r: Option<Option<Spell>>)
    ensures
        match r {
            Some(found) => article_spell(article@) is Some && spell_found(
                found,
                article_spell(article@)->0,
            ),
            None => article_spell(article@) is None,
        },
{
    let v = chars_of(article);
    let newline = vec!['\n'];
    proof {
        reveal_strlit("\n");
        assert(newline@ =~= "\n"@);
    }
    let lines = split_strings(&v, &newline);
    let ghost all = split(v@, "\n"@);
    let mut n = Notes {
        name: None,
        school: None,
        subschool: None,
        descriptors: Vec::new(),
        levels: Vec::new(),
    };
    let ghost mut st = no_notes();
    proof {
        let es = level_views(n.levels@);
        assert(es.map_values(|e: (Seq<char>, i8)| e.0) =~= Seq::<Seq<char>>::empty());
        assert(Map::<Seq<char>, i8>::empty().dom() =~= Seq::<Seq<char>>::empty().to_set());
        assert(string_views(n.descriptors@) =~= Seq::<Seq<char>>::empty());
        assert(all.take(0) =~= Seq::<Seq<char>>::empty());
    }
    let mut i: usize = 0;
    while i < lines.len()
        invariant
            i <= lines@.len(),
            all == string_views(lines@),
            all == split(article@, "\n"@),
            read_lines(all.take(i as int)) == Some(st),
            notes_hold(n, st),
        decreases lines.len() - i,
    {
        assert(all.take(i + 1).drop_last() =~= all.take(i as int));
        assert(all.take(i + 1).last() == lines@[i as int]@);
        let line = trim_string(&chars_of(lines[i].as_str()), Strip::WhiteSpace);
        match read_article_line(n, line.as_str(), Ghost(st)) {
            Some(next) => {
                n = next;
                proof {
                    st = read_line(st, line@)->0;
                }
            },
            None => {
                proof {
                    lemma_read_lines_none(all, i as int);
                }
                return None;
            },
        }
        i += 1;
    }
    assert(all.take(i as int) =~= all);
    match (n.name, n.school) {
        (Some(name), Some(school)) => {
            let subschool = match n.subschool {
                Some(ss) => ss,
                None => String::from_str("N/A"),
            };
            Some(
                Some(
                    Spell {
                        name,
                        school,
                        subschool,
                        descriptors: n.descriptors,
                        levels: n.levels,
                    },
                ),
            )
        },
        _ => Some(None),
    }
}

/// Once a line stops the reading, no longer list of lines can be read either.
proof fn lemma_read_lines_none(lines: Seq<Seq<char>>, i: int)
    requires
        0 <= i < lines.len(),
        read_lines(lines.take(i + 1)) is None,
    ensures
        read_lines(lines) is None,
    decreases lines.len() - i,
{
    if i + 1 < lines.len() {
        assert(lines.take(i + 2).drop_last() =~= lines.take(i + 1));
        lemma_read_lines_none(lines, i + 1);
    } else {
        assert(lines.take(i + 1) =~= lines);
    }
}

/// The spell on a spell page: its name, school, subschool (`N/A` where none is given),
/// descriptors and class levels; `None` where the page names no spell or no school.
pub fn parse_spell(html: &str) -> (r: Option<Spell>)
    requires
        page_spell(html@) is Some,
    ensures
        spell_found(r, page_spell(html@)->0),
{
    match select_inner_html(html, "#article-content") {
        Some(Some(article)) => match parse_spell_article(article.as_str()) {
            Some(found) => found,
            None => None,
        },
        _ => None,
    }
}

/// The spell on a spell page, or `None` where the page cannot be read: it has no
/// `#article-content` element, or a line of it stops the reading.
pub fn try_parse_spell(html: &str) -> (r: Option<Option<Spell>>)
    ensures
        match r {
            Some(found) => page_spell(html@) is Some && spell_found(found, page_spell(html@)->0),
            None => page_spell(html@) is None,
        },
{
    match select_inner_html(html, "#article-content") {
        Some(Some(article)) => match parse_spell_article(article.as_str()) {
            Some(_) => Some(parse_spell(html)),
            None => None,
        },
        _ => None,
    }
}

/// The name that the last heading line of `lines` gives, each line trimmed: the first text
/// of its `h1` element; `None` where there is no heading line or it gives no name.
pub open spec fn last_heading_name(lines: Seq<Seq<char>>) -> Option<Seq<char>>
    decreases lines.len(),
{
    if lines.len() == 0 {
        None
    } else if has_prefix(trim(lines.last()), "<h1>"@) {
        match spell_name_of(trim(lines.last())) {
            Some(n) => n,
            None => None,
        }
    } else {
        last_heading_name(lines.drop_last())
    }
}

/// The school that the last school line of `lines` gives, each line trimmed; `None` where
/// there is no school line or it gives no school.
pub open spec fn last_school(lines: Seq<Seq<char>>) -> Option<Seq<char>>
    decreases lines.len(),
{
    if lines.len() == 0 {
        None
    } else if has_infix(trim(lines.last()), "<b>School</b>"@) {
        match spell_school_of(trim(lines.last())) {
            Some(s) => s,
            None => None,
        }
    } else {
        last_school(lines.drop_last())
    }
}

/// The subschool that the last school line naming one gives, each line trimmed: the match
/// of the subschool pattern without its parentheses and wrapping link; `None` where no
/// school line names a subschool.
pub open spec fn last_subschool(lines: Seq<Seq<char>>) -> Option<Seq<char>>
    decreases lines.len(),
{
    if lines.len() == 0 {
        None
    } else {
        let t = trim(lines.last());
        let found = if has_infix(t, "<b>School</b>"@) {
            match regex_first_match(SUBSCHOOL_PATTERN@, t) {
                Some(Some(m)) => anchor_text_of(trim_chars(m, Strip::Parens)),
                _ => None,
            }
        } else {
            None
        };
        match found {
            Some(a) => Some(a),
            None => last_subschool(lines.drop_last()),
        }
    }
}

/// The descriptors that the last school line naming some gives, each line trimmed: the
/// comma-separated items inside the first match of the descriptors pattern, trimmed and
/// without wrapping links, whether or not that line names a subschool; none where no school
/// line names descriptors.
pub open spec fn last_descriptors(lines: Seq<Seq<char>>) -> Seq<Seq<char>>
    decreases lines.len(),
{
    if lines.len() == 0 {
        seq![]
    } else {
        let t = trim(lines.last());
        let found = if has_infix(t, "<b>School</b>"@) {
            match regex_first_match(DESCRIPTORS_PATTERN@, t) {
                Some(Some(m)) => anchor_texts(
                    split(trim_chars(m, Strip::Brackets), ","@).map_values(
                        |x: Seq<char>| trim(x),
                    ),
                ),
                _ => None,
            }
        } else {
            None
        };
        match found {
            Some(d) => d,
            None => last_descriptors(lines.drop_last()),
        }
    }
}

/// Where the lines can be read, the subschool and descriptors found are those of the last
/// school lines that name them.
proof fn lemma_read_lines_subschool_descriptors(lines: Seq<Seq<char>>)
    ensures
        read_lines(lines) matches Some(st) ==> st.subschool == last_subschool(lines)
            && st.descriptors == last_descriptors(lines),
    decreases lines.len(),
{
    if lines.len() > 0 {
        lemma_read_lines_subschool_descriptors(lines.drop_last());
    }
}

/// The spell of a readable article has the subschool of the last school line that names
/// one (`N/A` where none does), and the descriptors of the last school line whose
/// bracketed list the descriptors pattern matches, whether or not that line also names a
/// subschool.
pub proof fn law_spell_subschool_and_descriptors(article: Seq<char>)
    ensures
        article_spell(article) matches Some(Some(rec)) ==> {
            let lines = split(article, "\n"@);
            &&& rec.subschool == (match last_subschool(lines) {
                Some(s) => s,
                None => "N/A"@,
            })
            &&& rec.descriptors == last_descriptors(lines)
        },
{
    lemma_read_lines_subschool_descriptors(split(article, "\n"@));
}

/// Where the lines can be read, the name and school found are those of the last heading
/// line and the last school line.
proof fn lemma_read_lines_name_school(lines: Seq<Seq<char>>)
    ensures
        read_lines(lines) matches Some(st) ==> st.name == last_heading_name(lines) && st.school
            == last_school(lines),
    decreases lines.len(),
{
    if lines.len() > 0 {
        lemma_read_lines_name_school(lines.drop_last());
    }
}

/// A spell article that can be read names a spell exactly when its last heading line gives a
/// name and its last school line gives a school; the spell then has that name and school.
/// Neither a missing subschool, descriptor list or level line, nor what they hold, decides
/// whether there is a spell.
pub proof fn law_spell_found_exactly_with_name_and_school(article: Seq<char>)
    ensures
        article_spell(article) matches Some(found) ==> {
            let lines = split(article, "\n"@);
            &&& (found is Some <==> (last_heading_name(lines) is Some && last_school(lines) is Some))
            &&& (found matches Some(rec) ==> rec.name == last_heading_name(lines)->0 && rec.school
                == last_school(lines)->0)
        },
{
    lemma_read_lines_name_school(split(article, "\n"@));
}

} // verus!
