//! Papers in an Atom feed of arXiv.
use vstd::prelude::*;
use vstd::slice::slice_subrange;

use crate::entities::{decode_chars, decoded, escaped};
use crate::json::{
    contents, documents, is_list_of, new_members, no_members, object_value, put, put_some_text,
    put_text, shows, strings, text_documents, texts_value, with_text, Document,
};
use crate::number::{
    decimal, law_decimal_is_plain, law_decimal_reads_back, parse_u32_chars, parsed_u32,
};
use crate::order::{
    ascending, char_texts, insert_sorted, law_texts_can_be_sorted, lemma_sorted_distinct,
    lists_each_once, sorted_distinct,
};
use crate::text::{
    before, before_chars, chars_of, find, find_chars, head_is_unique, lemma_find_none,
    lemma_found_behind, lemma_found_later, lemma_not_across, occurs_at, optional_text, pieces_after,
    pieces_after_chars, same_chars, string_of, tail_is_unique, texts,
};
use crate::whitespace::{
    collapse_chars, lemma_trim_around, spaced, trim, trim_chars, white, words,
};
use crate::xml::{
    attr_chars, attr_value, close_tag, law_attribute_reads_back, law_element_reads_back,
    law_escaped_attribute_reads_back, law_escaped_element_reads_back, open_tag, tag_chars,
    tag_text,
};

verus! {

// ---------------------------------------------------------------------------
// What the parts of an entry are
// ---------------------------------------------------------------------------

/// The text with its words joined by single spaces.
pub open spec fn collapsed(s: Seq<char>) -> Seq<char> {
    spaced(words(s))
}

/// The text of an element, with its entities decoded.
pub open spec fn decoded_tag(xml: Seq<char>, tag: Seq<char>) -> Option<Seq<char>> {
    match tag_text(xml, tag) {
        Some(t) => Some(decoded(t)),
        None => None,
    }
}

/// The text of an element, decoded and collapsed; empty where it is missing.
pub open spec fn collapsed_tag(xml: Seq<char>, tag: Seq<char>) -> Seq<char> {
    match tag_text(xml, tag) {
        Some(t) => collapsed(decoded(t)),
        None => Seq::empty(),
    }
}

/// The number of results that the feed reports.
pub open spec fn total_results(xml: Seq<char>) -> Option<u32> {
    match tag_text(xml, "opensearch:totalResults"@) {
        Some(t) => parsed_u32(trim(t)),
        None => None,
    }
}

/// The term of the primary category, not decoded.
pub open spec fn primary_category(xml: Seq<char>) -> Option<Seq<char>> {
    match find(xml, "<arxiv:primary_category"@) {
        Some(i) => attr_value(xml.skip(i), "term"@),
        None => None,
    }
}

/// The terms of the categories in the order of the text, decoded.
pub open spec fn category_terms(xml: Seq<char>) -> Seq<Seq<char>>
    decreases xml.len(),
{
    match find(xml, "<category"@) {
        Some(i) => {
            proof {
                lemma_find_none(xml, "<category"@);
                reveal_strlit("<category");
            }
            let rest = xml.skip(i + "<category"@.len());
            match attr_value(rest, "term"@) {
                Some(term) => seq![decoded(term)] + category_terms(rest),
                None => category_terms(rest),
            }
        },
        None => Seq::empty(),
    }
}

/// The names in the pieces that start behind `<author>`.
pub open spec fn names_in(pieces: Seq<Seq<char>>) -> Seq<Seq<char>>
    decreases pieces.len(),
{
    if pieces.len() == 0 {
        Seq::empty()
    } else {
        let names = names_in(pieces.drop_last());
        match tag_text(before(pieces.last(), "</author>"@), "name"@) {
            Some(name) => names.push(collapsed(decoded(name))),
            None => names,
        }
    }
}

/// The names of the authors.
pub open spec fn author_names(xml: Seq<char>) -> Seq<Seq<char>> {
    names_in(pieces_after(xml, "<author>"@))
}

/// The target of the first link with the relation `rel`, decoded.
pub open spec fn link_href(xml: Seq<char>, rel: Seq<char>) -> Option<Seq<char>>
    decreases xml.len(),
{
    match find(xml, "<link "@) {
        Some(i) => {
            proof {
                lemma_find_none(xml, "<link "@);
            }
            let from = xml.skip(i);
            match find(from, seq!['>']) {
                Some(end) => {
                    proof {
                        lemma_find_none(from, seq!['>']);
                    }
                    let tag = from.take(end);
                    if attr_value(tag, "rel"@) == Some(rel) {
                        match attr_value(tag, "href"@) {
                            Some(href) => Some(decoded(href)),
                            None => None,
                        }
                    } else {
                        link_href(from.skip(end + 1), rel)
                    }
                },
                None => None,
            }
        },
        None => None,
    }
}

/// The entries of the feed: what stands behind each `<entry>`, up to its end.
pub open spec fn entries(xml: Seq<char>) -> Seq<Seq<char>> {
    pieces_after(xml, "<entry>"@).map_values(|piece: Seq<char>| before(piece, "</entry>"@))
}

// ---------------------------------------------------------------------------
// Papers
// ---------------------------------------------------------------------------

/// One paper of the feed.
#[derive(Debug, PartialEq, Eq)]
pub struct Paper {
    pub id: Option<String>,
    pub title: String,
    pub summary: String,
    pub authors: Vec<String>,
    pub categories: Vec<String>,
    pub published: Option<String>,
    pub updated: Option<String>,
    pub primary_category: Option<String>,
    pub url: Option<String>,
}

/// The values that a paper holds.
pub struct PaperView {
    pub id: Option<Seq<char>>,
    pub title: Seq<char>,
    pub summary: Seq<char>,
    pub authors: Seq<Seq<char>>,
    pub categories: Seq<Seq<char>>,
    pub published: Option<Seq<char>>,
    pub updated: Option<Seq<char>>,
    pub primary_category: Option<Seq<char>>,
    pub url: Option<Seq<char>>,
}

impl View for Paper {
    type V = PaperView;

    open spec fn view(&self) -> PaperView {
        PaperView {
            id: optional_text(self.id),
            title: self.title@,
            summary: self.summary@,
            authors: strings(self.authors@),
            categories: strings(self.categories@),
            published: optional_text(self.published),
            updated: optional_text(self.updated),
            primary_category: optional_text(self.primary_category),
            url: optional_text(self.url),
        }
    }
}

/// The paper that an entry describes. Its URL is that of the related link, or
/// else of the alternate one.
pub open spec fn paper_of(entry: Seq<char>) -> PaperView {
    PaperView {
        id: decoded_tag(entry, "id"@),
        title: collapsed_tag(entry, "title"@),
        summary: collapsed_tag(entry, "summary"@),
        authors: author_names(entry),
        categories: sorted_distinct(category_terms(entry)),
        published: decoded_tag(entry, "published"@),
        updated: decoded_tag(entry, "updated"@),
        primary_category: match primary_category(entry) {
            Some(term) => Some(decoded(term)),
            None => None,
        },
        url: match link_href(entry, "related"@) {
            Some(href) => Some(href),
            None => link_href(entry, "alternate"@),
        },
    }
}

/// The papers of the feed, in its order.
pub open spec fn papers(xml: Seq<char>) -> Seq<PaperView> {
    entries(xml).map_values(|entry: Seq<char>| paper_of(entry))
}

/// The values that each of the papers holds.
pub open spec fn paper_views(items: Seq<Paper>) -> Seq<PaperView> {
    items.map_values(|item: Paper| item@)
}

/// The members of the JSON object for a paper. Those for which the entry has no
/// text are missing, but for the title and the summary.
pub open spec fn paper_members(paper: PaperView) -> Map<Seq<char>, Document> {
    let m = no_members().insert("title"@, Document::Text(paper.title)).insert(
        "summary"@,
        Document::Text(paper.summary),
    ).insert("authors"@, Document::List(text_documents(paper.authors))).insert(
        "categories"@,
        Document::List(text_documents(paper.categories)),
    );
    let m = with_text(m, "id"@, paper.id);
    let m = with_text(m, "published"@, paper.published);
    let m = with_text(m, "updated"@, paper.updated);
    let m = with_text(m, "primary_category"@, paper.primary_category);
    with_text(m, "url"@, paper.url)
}

/// The JSON object for a paper.
pub open spec fn paper_document(paper: PaperView) -> Document {
    Document::Object(paper_members(paper))
}

// ---------------------------------------------------------------------------
// Reading the parts of an entry
// ---------------------------------------------------------------------------

fn decoded_string(s: &[char]) -> (r: String)
    ensures
        r@ == decoded(s@),
{
    let cs = decode_chars(s);
    string_of(cs.as_slice())
}

fn collapsed_string(s: &[char]) -> (r: String)
    ensures
        r@ == collapsed(decoded(s@)),
{
    let cs = decode_chars(s);
    let out = collapse_chars(cs.as_slice());
    string_of(out.as_slice())
}

fn decoded_tag_string(xml: &[char], tag: &str) -> (r: Option<String>)
    ensures
        optional_text(r) == decoded_tag(xml@, tag@),
{
    match tag_chars(xml, tag) {
        Some(t) => Some(decoded_string(t)),
        None => None,
    }
}

fn collapsed_tag_string(xml: &[char], tag: &str) -> (r: String)
    ensures
        r@ == collapsed_tag(xml@, tag@),
{
    match tag_chars(xml, tag) {
        Some(t) => collapsed_string(t),
        None => String::new(),
    }
}

/// The number of results that the feed reports.
pub fn parse_total_results(xml: &str) -> (r: Option<u32>)
    ensures
        r == total_results(xml@),
{
    let cs = chars_of(xml);
    match tag_chars(cs.as_slice(), "opensearch:totalResults") {
        Some(t) => parse_u32_chars(trim_chars(t)),
        None => None,
    }
}

fn primary_category_chars<'a>(xml: &'a [char]) -> (r: Option<&'a [char]>)
    ensures
        match r {
            Some(t) => primary_category(xml@) == Some(t@),
            None => primary_category(xml@) is None,
        },
{
    let marker = chars_of("<arxiv:primary_category");
    match find_chars(xml, marker.as_slice()) {
        Some(i) => {
            let tail = slice_subrange(xml, i, xml.len());
            assert(tail@ =~= xml@.skip(i as int));
            attr_chars(tail, "term")
        },
        None => None,
    }
}

/// The term of the primary category of the entry, not decoded.
pub fn extract_primary_category(xml: &str) -> (r: Option<String>)
    ensures
        optional_text(r) == primary_category(xml@),
{
    let cs = chars_of(xml);
    match primary_category_chars(cs.as_slice()) {
        Some(t) => Some(string_of(t)),
        None => None,
    }
}

fn strings_of(items: &Vec<Vec<char>>) -> (r: Vec<String>)
    ensures
        strings(r@) == char_texts(items@),
{
    let mut out: Vec<String> = Vec::new();
    let mut i: usize = 0;
    while i < items.len()
        invariant
            i <= items@.len(),
            strings(out@) == char_texts(items@).take(i as int),
        decreases items@.len() - i,
    {
        let ghost earlier = out@;
        out.push(string_of(items[i].as_slice()));
        i += 1;
        assert(strings(out@) =~= strings(earlier).push(items@[i - 1]@));
        assert(char_texts(items@).take(i as int) =~= char_texts(items@).take(i - 1).push(
            items@[i - 1]@,
        ));
    }
    assert(char_texts(items@).take(i as int) =~= char_texts(items@));
    out
}

fn categories_of(xml: &[char]) -> (r: Vec<String>)
    ensures
        lists_each_once(strings(r@), category_terms(xml@)),
        strings(r@) == sorted_distinct(category_terms(xml@)),
{
    proof {
        reveal_strlit("<category");
    }
    let marker = chars_of("<category");
    let mut out: Vec<Vec<char>> = Vec::new();
    let ghost mut seen: Seq<Seq<char>> = Seq::empty();
    let mut rest: &[char] = xml;
    assert(char_texts(out@) =~= Seq::empty());
    assert(seen + category_terms(rest@) =~= category_terms(xml@));
    loop
        invariant
            marker@ == "<category"@,
            marker@.len() > 0,
            ascending(char_texts(out@)),
            forall|t: Seq<char>| char_texts(out@).contains(t) <==> seen.contains(t),
            seen + category_terms(rest@) == category_terms(xml@),
        decreases rest@.len(),
    {
        match find_chars(rest, marker.as_slice()) {
            None => {
                let r = strings_of(&out);
                proof {
                    assert(seen + category_terms(rest@) =~= seen);
                    lemma_sorted_distinct(strings(r@), category_terms(xml@));
                }
                return r;
            },
            Some(i) => {
                let ghost from = rest@;
                rest = slice_subrange(rest, i + marker.len(), rest.len());
                assert(rest@ =~= from.skip(i + "<category"@.len()));
                if let Some(term) = attr_chars(rest, "term") {
                    let text = decode_chars(term);
                    let ghost t0 = text@;
                    insert_sorted(&mut out, text);
                    proof {
                        let next = seen.push(t0);
                        assert(seen + (seq![t0] + category_terms(rest@)) =~= next
                            + category_terms(rest@));
                        assert forall|t: Seq<char>|
                            next.contains(t) <==> seen.contains(t) || t == t0 by {
                            if seen.contains(t) {
                                let k = choose|k: int| 0 <= k < seen.len() && seen[k] == t;
                                assert(next[k] == t);
                            }
                            assert(next[seen.len() as int] == t0);
                        }
                        seen = next;
                    }
                }
            },
        }
    }
}

/// The terms of the categories of the entry, decoded, in ascending order and
/// each once.
pub fn extract_categories(xml: &str) -> (r: Vec<String>)
    ensures
        lists_each_once(strings(r@), category_terms(xml@)),
        strings(r@) == sorted_distinct(category_terms(xml@)),
{
    let cs = chars_of(xml);
    categories_of(cs.as_slice())
}

fn authors_of(xml: &[char]) -> (r: Vec<String>)
    ensures
        strings(r@) == author_names(xml@),
{
    proof {
        reveal_strlit("<author>");
    }
    let separator = chars_of("<author>");
    let end = chars_of("</author>");
    let pieces = pieces_after_chars(xml, separator.as_slice());
    let mut out: Vec<String> = Vec::new();
    let mut i: usize = 0;
    assert(texts(pieces@).take(0) =~= Seq::empty());
    assert(strings(out@) =~= Seq::empty());
    while i < pieces.len()
        invariant
            i <= pieces@.len(),
            end@ == "</author>"@,
            strings(out@) == names_in(texts(pieces@).take(i as int)),
        decreases pieces@.len() - i,
    {
        let ghost earlier = out@;
        let piece = before_chars(pieces[i], end.as_slice());
        if let Some(name) = tag_chars(piece, "name") {
            out.push(collapsed_string(name));
            assert(strings(out@) =~= strings(earlier).push(collapsed(decoded(name@))));
        }
        i += 1;
        proof {
            let now = texts(pieces@).take(i as int);
            assert(now.drop_last() =~= texts(pieces@).take(i - 1));
            assert(now.last() == pieces@[i - 1]@);
        }
    }
    assert(texts(pieces@).take(i as int) =~= texts(pieces@));
    out
}

/// The names of the authors of the entry.
pub fn extract_authors(xml: &str) -> (r: Vec<String>)
    ensures
        strings(r@) == author_names(xml@),
{
    let cs = chars_of(xml);
    authors_of(cs.as_slice())
}

fn link_of(xml: &[char], rel: &str) -> (r: Option<String>)
    ensures
        optional_text(r) == link_href(xml@, rel@),
{
    let marker = chars_of("<link ");
    let wanted = chars_of(rel);
    let mut bracket: Vec<char> = Vec::new();
    bracket.push('>');
    assert(bracket@ =~= seq!['>']);
    let mut rest: &[char] = xml;
    loop
        invariant
            marker@ == "<link "@,
            wanted@ == rel@,
            bracket@ == seq!['>'],
            link_href(rest@, rel@) == link_href(xml@, rel@),
        decreases rest@.len(),
    {
        match find_chars(rest, marker.as_slice()) {
            None => {
                return None;
            },
            Some(i) => {
                let from = slice_subrange(rest, i, rest.len());
                assert(from@ =~= rest@.skip(i as int));
                match find_chars(from, bracket.as_slice()) {
                    None => {
                        return None;
                    },
                    Some(end) => {
                        let tag = slice_subrange(from, 0, end);
                        assert(tag@ =~= from@.take(end as int));
                        let found = match attr_chars(tag, "rel") {
                            Some(value) => same_chars(value, wanted.as_slice()),
                            None => false,
                        };
                        if found {
                            return match attr_chars(tag, "href") {
                                Some(href) => Some(decoded_string(href)),
                                None => None,
                            };
                        }
                        rest = slice_subrange(from, end + 1, from.len());
                        assert(rest@ =~= from@.skip(end + 1));
                    },
                }
            },
        }
    }
}

/// The target of the first link of the entry with the relation `rel`.
pub fn extract_link_href(xml: &str, rel: &str) -> (r: Option<String>)
    ensures
        optional_text(r) == link_href(xml@, rel@),
{
    let cs = chars_of(xml);
    link_of(cs.as_slice(), rel)
}

// ---------------------------------------------------------------------------
// Reading the papers
// ---------------------------------------------------------------------------

fn read_paper(entry: &[char]) -> (r: Paper)
    ensures
        r@ == paper_of(entry@),
{
    let primary = match primary_category_chars(entry) {
        Some(term) => Some(decoded_string(term)),
        None => None,
    };
    let url = match link_of(entry, "related") {
        Some(href) => Some(href),
        None => link_of(entry, "alternate"),
    };
    Paper {
        id: decoded_tag_string(entry, "id"),
        title: collapsed_tag_string(entry, "title"),
        summary: collapsed_tag_string(entry, "summary"),
        authors: authors_of(entry),
        categories: categories_of(entry),
        published: decoded_tag_string(entry, "published"),
        updated: decoded_tag_string(entry, "updated"),
        primary_category: primary,
        url,
    }
}

/// The papers of the feed, in its order.
pub fn parse_papers(xml: &str) -> (r: Vec<Paper>)
    ensures
        paper_views(r@) == papers(xml@),
{
    proof {
        reveal_strlit("<entry>");
    }
    let cs = chars_of(xml);
    let separator = chars_of("<entry>");
    let end = chars_of("</entry>");
    let pieces = pieces_after_chars(cs.as_slice(), separator.as_slice());
    let mut out: Vec<Paper> = Vec::new();
    let mut i: usize = 0;
    while i < pieces.len()
        invariant
            i <= pieces@.len(),
            end@ == "</entry>"@,
            texts(pieces@) == pieces_after(xml@, "<entry>"@),
            paper_views(out@) == papers(xml@).take(i as int),
        decreases pieces@.len() - i,
    {
        let ghost earlier = out@;
        let entry = before_chars(pieces[i], end.as_slice());
        let paper = read_paper(entry);
        out.push(paper);
        i += 1;
        proof {
            assert(texts(pieces@)[i - 1] == pieces@[i - 1]@);
            assert(papers(xml@)[i - 1] == paper@);
            assert(paper_views(out@) =~= paper_views(earlier).push(paper@));
            assert(papers(xml@).take(i as int) =~= papers(xml@).take(i - 1).push(paper@));
        }
    }
    assert(texts(pieces@).len() == pieces@.len());
    assert(papers(xml@).take(i as int) =~= papers(xml@));
    out
}

/// The JSON object for a paper.
pub fn paper_value(paper: &Paper) -> (r: serde_json::Value)
    ensures
        contents(r) == paper_document(paper@),
{
    let mut map = new_members();
    put_text(&mut map, "title", paper.title.as_str());
    put_text(&mut map, "summary", paper.summary.as_str());
    put(&mut map, "authors", texts_value(&paper.authors));
    put(&mut map, "categories", texts_value(&paper.categories));
    put_some_text(&mut map, "id", &paper.id);
    put_some_text(&mut map, "published", &paper.published);
    put_some_text(&mut map, "updated", &paper.updated);
    put_some_text(&mut map, "primary_category", &paper.primary_category);
    put_some_text(&mut map, "url", &paper.url);
    object_value(map)
}

/// The JSON objects for the papers of the feed, in its order.
pub open spec fn paper_documents(xml: Seq<char>) -> Seq<Document> {
    papers(xml).map_values(|paper: PaperView| paper_document(paper))
}

/// The papers of the feed as JSON objects, in its order.
pub fn parse_entries(xml: &str) -> (r: Vec<serde_json::Value>)
    ensures
        documents(r@) == paper_documents(xml@),
{
    let items = parse_papers(xml);
    let mut out: Vec<serde_json::Value> = Vec::new();
    let mut i: usize = 0;
    while i < items.len()
        invariant
            i <= items@.len(),
            paper_views(items@) == papers(xml@),
            documents(out@) == paper_documents(xml@).take(i as int),
        decreases items@.len() - i,
    {
        let ghost earlier = out@;
        let value = paper_value(&items[i]);
        out.push(value);
        i += 1;
        proof {
            assert(paper_views(items@)[i - 1] == items@[i - 1]@);
            let d = paper_documents(xml@);
            assert(d[i - 1] == contents(value));
            assert(documents(out@) =~= documents(earlier).push(contents(value)));
            assert(d.take(i as int) =~= d.take(i - 1).push(contents(value)));
        }
    }
    assert(paper_views(items@).len() == items@.len());
    assert(paper_documents(xml@).take(i as int) =~= paper_documents(xml@));
    out
}

// ---------------------------------------------------------------------------
// Laws
// ---------------------------------------------------------------------------

/// `<category` stands at position `i`, and the next term behind it decodes to
/// `term`.
pub open spec fn category_at(xml: Seq<char>, i: int, term: Seq<char>) -> bool {
    &&& occurs_at(xml, "<category"@, i)
    &&& attr_value(xml.skip(i + "<category"@.len()), "term"@) matches Some(value) && decoded(value)
        == term
}

/// A category is listed if and only if it is the term of some `<category`.
pub proof fn law_categories_are_listed(xml: Seq<char>, term: Seq<char>)
    ensures
        category_terms(xml).contains(term) <==> exists|i: int| category_at(xml, i, term),
        paper_of(xml).categories.contains(term) <==> exists|i: int| category_at(xml, i, term),
{
    lemma_category_terms(xml, term);
    law_texts_can_be_sorted(category_terms(xml));
}

#[verifier::spinoff_prover]
proof fn lemma_category_terms(xml: Seq<char>, term: Seq<char>)
    ensures
        category_terms(xml).contains(term) <==> exists|i: int| category_at(xml, i, term),
    decreases xml.len(),
{
    let marker = "<category"@;
    reveal_strlit("<category");
    lemma_find_none(xml, marker);
    match find(xml, marker) {
        None => {
            assert forall|i: int| !category_at(xml, i, term) by {
                assert(!occurs_at(xml, marker, i));
            }
        },
        Some(first) => {
            let n = first + marker.len();
            let rest = xml.skip(n);
            lemma_category_terms(rest, term);
            assert forall|j: int| 0 <= j implies category_at(rest, j, term) == category_at(
                xml,
                n + j,
                term,
            ) by {
                if n + j + marker.len() <= xml.len() {
                    assert(rest.subrange(j, j + marker.len()) =~= xml.subrange(
                        n + j,
                        n + j + marker.len(),
                    ));
                    assert(rest.skip(j + marker.len()) =~= xml.skip(n + j + marker.len()));
                }
            }
            assert forall|i: int| category_at(xml, i, term) implies i == first || i >= n by {
                if first < i < n {
                    assert(xml.subrange(first, n)[i - first] == xml[i]);
                    assert(xml.subrange(i, i + marker.len())[0] == xml[i]);
                }
            }
            let later = category_terms(rest);
            if later.contains(term) {
                let j = choose|j: int| category_at(rest, j, term);
                assert(category_at(xml, n + j, term));
            }
            if exists|i: int| category_at(xml, i, term) && i != first {
                let i = choose|i: int| category_at(xml, i, term) && i != first;
                assert(category_at(rest, i - n, term));
            }
            match attr_value(rest, "term"@) {
                Some(value) => {
                    let all = seq![decoded(value)] + later;
                    assert(category_terms(xml) == all);
                    assert(category_at(xml, first, term) <==> decoded(value) == term);
                    assert(all[0] == decoded(value));
                    assert(all.contains(term) <==> decoded(value) == term || later.contains(term))
                        by {
                        if later.contains(term) {
                            let k = choose|k: int| 0 <= k < later.len() && later[k] == term;
                            assert(all[k + 1] == term);
                        }
                        if all.contains(term) {
                            let k = choose|k: int| 0 <= k < all.len() && all[k] == term;
                            if k > 0 {
                                assert(later[k - 1] == term);
                            }
                        }
                    }
                },
                None => {
                    assert(!category_at(xml, first, term));
                },
            }
        },
    }
}

/// The link tags of the text in their order: each from `<link ` up to the next
/// closing bracket, and none that is not closed.
pub open spec fn link_tags(xml: Seq<char>) -> Seq<Seq<char>>
    decreases xml.len(),
{
    match find(xml, "<link "@) {
        Some(i) => {
            proof {
                lemma_find_none(xml, "<link "@);
            }
            let from = xml.skip(i);
            match find(from, seq!['>']) {
                Some(end) => {
                    proof {
                        lemma_find_none(from, seq!['>']);
                    }
                    seq![from.take(end)] + link_tags(from.skip(end + 1))
                },
                None => Seq::empty(),
            }
        },
        None => Seq::empty(),
    }
}

/// A link tag is the first of the text if no other starts before it, and those
/// behind it follow.
#[verifier::spinoff_prover]
pub proof fn law_link_tags_read_back(pre: Seq<char>, inner: Seq<char>, post: Seq<char>)
    requires
        find(pre, "<link "@) is None,
        !inner.contains('>'),
    ensures
        link_tags(pre + ("<link "@ + inner) + seq!['>'] + post) == seq!["<link "@ + inner]
            + link_tags(post),
{
    let marker = "<link "@;
    let bracket = seq!['>'];
    let tag = marker + inner;
    let xml = pre + tag + bracket + post;
    reveal_strlit("<link ");
    assert(xml =~= pre + marker + (inner + bracket + post));
    lemma_found_behind(pre, marker, inner + bracket + post);
    let from = xml.skip(pre.len() as int);
    assert(from =~= tag + bracket + post);
    lemma_find_none(tag, bracket);
    assert forall|i: int| !occurs_at(tag, bracket, i) by {
        if occurs_at(tag, bracket, i) {
            assert(tag.subrange(i, i + 1)[0] == tag[i]);
            if i >= marker.len() {
                assert(inner.contains(inner[i - marker.len()]));
            }
        }
    }
    lemma_found_behind(tag, bracket, post);
    assert(from.take(tag.len() as int) =~= tag);
    assert(from.skip(tag.len() as int + 1) =~= post);
}

/// The tag has the relation `rel`.
pub open spec fn has_relation(tag: Seq<char>, rel: Seq<char>) -> bool {
    attr_value(tag, "rel"@) == Some(rel)
}

/// `k` is the position of the first of the tags with the relation `rel`.
pub open spec fn first_with_relation(tags: Seq<Seq<char>>, rel: Seq<char>, k: int) -> bool {
    &&& 0 <= k < tags.len()
    &&& has_relation(tags[k], rel)
    &&& forall|j: int| 0 <= j < k ==> !has_relation(#[trigger] tags[j], rel)
}

/// The first of all link tags with the relation decides the link, also where it
/// has no target; without such a tag there is no link.
#[verifier::spinoff_prover]
pub proof fn law_first_link_decides(xml: Seq<char>, rel: Seq<char>)
    ensures
        forall|k: int| #[trigger]
            first_with_relation(link_tags(xml), rel, k) ==> link_href(xml, rel) == (match attr_value(
                link_tags(xml)[k],
                "href"@,
            ) {
                Some(href) => Some(decoded(href)),
                None => None,
            }),
        (forall|k: int|
            0 <= k < link_tags(xml).len() ==> !has_relation(#[trigger] link_tags(xml)[k], rel))
            ==> link_href(xml, rel) is None,
    decreases xml.len(),
{
    lemma_find_none(xml, "<link "@);
    if let Some(i) = find(xml, "<link "@) {
        let from = xml.skip(i);
        lemma_find_none(from, seq!['>']);
        if let Some(end) = find(from, seq!['>']) {
            let tag = from.take(end);
            let rest = from.skip(end + 1);
            let tags = link_tags(xml);
            let later = link_tags(rest);
            assert(tags == seq![tag] + later);
            assert(tags[0] == tag);
            assert forall|k: int| 0 <= k < later.len() implies later[k] == #[trigger] tags[k + 1] by {
            }
            law_first_link_decides(rest, rel);
            if has_relation(tag, rel) {
                assert forall|k: int| first_with_relation(tags, rel, k) implies k == 0 by {
                    if k > 0 {
                        assert(!has_relation(tags[0], rel));
                    }
                }
            } else {
                assert forall|k: int| #[trigger]
                    first_with_relation(tags, rel, k) implies first_with_relation(
                    later,
                    rel,
                    k - 1,
                ) by {
                    assert forall|j: int| 0 <= j < k - 1 implies !has_relation(
                        #[trigger] later[j],
                        rel,
                    ) by {
                        assert(!has_relation(tags[j + 1], rel));
                    }
                }
                if forall|k: int| 0 <= k < tags.len() ==> !has_relation(#[trigger] tags[k], rel) {
                    assert forall|k: int| 0 <= k < later.len() implies !has_relation(
                        #[trigger] later[k],
                        rel,
                    ) by {
                        assert(!has_relation(tags[k + 1], rel));
                    }
                }
            }
        }
    }
}

/// An entry of a feed, and what stands between it and the next one.
pub struct Written {
    pub entry: Seq<char>,
    pub gap: Seq<char>,
}

/// The entries as a feed holds them.
pub open spec fn written(items: Seq<Written>) -> Seq<char>
    decreases items.len(),
{
    if items.len() == 0 {
        Seq::empty()
    } else {
        "<entry>"@ + (items[0].entry + "</entry>"@ + items[0].gap) + written(items.skip(1))
    }
}

/// The tags of an entry stand at its ends alone.
pub open spec fn well_written(item: Written) -> bool {
    &&& find(item.entry, "<entry>"@) is None
    &&& find(item.entry, "</entry>"@) is None
    &&& find(item.gap, "<entry>"@) is None
}

/// The entries of a feed are read back in their order, whatever stands before
/// and between them, and each gives one paper.
#[verifier::spinoff_prover]
pub proof fn law_feed_reads_back(pre: Seq<char>, items: Seq<Written>)
    requires
        find(pre, "<entry>"@) is None,
        forall|i: int| 0 <= i < items.len() ==> well_written(#[trigger] items[i]),
    ensures
        entries(pre + written(items)) == items.map_values(|item: Written| item.entry),
        papers(pre + written(items)) == items.map_values(|item: Written| paper_of(item.entry)),
        paper_documents(pre + written(items)).len() == items.len(),
        forall|i: int|
            0 <= i < items.len() ==> #[trigger] paper_documents(pre + written(items))[i]
                == paper_document(paper_of(items[i].entry)),
{
    lemma_entry_tags();
    let pieces = pieces_after(pre + written(items), "<entry>"@);
    lemma_pieces_read_back(pre, items);
    assert forall|i: int| 0 <= i < items.len() implies #[trigger] entries(
        pre + written(items),
    )[i] == items[i].entry by {
        let item = items[i];
        assert(well_written(item));
        lemma_found_behind(item.entry, "</entry>"@, item.gap);
        assert(pieces[i] == item.entry + "</entry>"@ + item.gap);
        assert((item.entry + "</entry>"@ + item.gap).take(item.entry.len() as int)
            =~= item.entry);
    }
    assert(entries(pre + written(items)) =~= items.map_values(|item: Written| item.entry));
    assert(papers(pre + written(items)) =~= items.map_values(
        |item: Written| paper_of(item.entry),
    ));
}

proof fn lemma_entry_tags()
    ensures
        "<entry>"@.len() > 0,
        "</entry>"@.len() > 0,
        "</entry>"@[0] == "<entry>"@[0],
        "</entry>"@.last() == "<entry>"@.last(),
        head_is_unique("<entry>"@),
        tail_is_unique("<entry>"@),
        head_is_unique("</entry>"@),
        find("</entry>"@, "<entry>"@) is None,
{
    reveal_strlit("<entry>");
    reveal_strlit("</entry>");
    let s = "</entry>"@;
    let p = "<entry>"@;
    lemma_find_none(s, p);
    assert forall|j: int| !occurs_at(s, p, j) by {
        if occurs_at(s, p, j) {
            assert(s.subrange(j, j + p.len())[0] == s[j]);
            assert(s.subrange(j, j + p.len())[1] == s[j + 1]);
        }
    }
}

#[verifier::spinoff_prover]
proof fn lemma_pieces_read_back(pre: Seq<char>, items: Seq<Written>)
    requires
        find(pre, "<entry>"@) is None,
        forall|i: int| 0 <= i < items.len() ==> well_written(#[trigger] items[i]),
    ensures
        pieces_after(pre + written(items), "<entry>"@) == items.map_values(
            |item: Written| item.entry + "</entry>"@ + item.gap,
        ),
    decreases items.len(),
{
    lemma_entry_tags();
    let tag = "<entry>"@;
    let s = pre + written(items);
    let pieces = items.map_values(|item: Written| item.entry + "</entry>"@ + item.gap);
    if items.len() == 0 {
        assert(s =~= pre);
        assert(pieces_after(s, tag) =~= pieces);
    } else {
        let item = items[0];
        assert(well_written(item));
        let others = items.skip(1);
        let piece = item.entry + "</entry>"@ + item.gap;
        let rest = piece + written(others);
        lemma_not_across(item.entry, "</entry>"@, tag);
        assert((item.entry + "</entry>"@).last() == tag.last());
        lemma_not_across(item.entry + "</entry>"@, item.gap, tag);
        assert(s =~= pre + tag + rest);
        lemma_found_behind(pre, tag, rest);
        assert(s.skip(pre.len() as int + tag.len()) =~= rest);
        assert forall|i: int| 0 <= i < others.len() implies well_written(#[trigger] others[i]) by {
            assert(others[i] == items[i + 1]);
        }
        lemma_pieces_read_back(piece, others);
        if others.len() == 0 {
            assert(rest =~= piece);
        } else {
            let next = others[0].entry + "</entry>"@ + others[0].gap;
            let more = next + written(others.skip(1));
            assert(rest =~= piece + tag + more);
            lemma_found_behind(piece, tag, more);
            assert(rest.take(piece.len() as int) =~= piece);
        }
        assert(before(rest, tag) == piece);
        let tail = others.map_values(|item: Written| item.entry + "</entry>"@ + item.gap);
        assert(pieces =~= seq![piece] + tail);
    }
}

/// Every entry of a feed, in its order, gives one paper and one JSON object: an entry
/// is what stands behind `<entry>`, up to the next `<entry>` and to `</entry>`.
pub proof fn law_each_entry_gives_one_paper(xml: Seq<char>)
    ensures
        entries(xml).len() == pieces_after(xml, "<entry>"@).len(),
        papers(xml).len() == entries(xml).len(),
        paper_documents(xml).len() == entries(xml).len(),
        forall|i: int|
            0 <= i < entries(xml).len() ==> #[trigger] entries(xml)[i] == before(
                pieces_after(xml, "<entry>"@)[i],
                "</entry>"@,
            ),
        forall|i: int|
            0 <= i < entries(xml).len() ==> #[trigger] papers(xml)[i] == paper_of(entries(xml)[i]),
        forall|i: int|
            0 <= i < entries(xml).len() ==> #[trigger] paper_documents(xml)[i] == paper_document(
                paper_of(entries(xml)[i]),
            ),
{
}

/// What tells the keys of the JSON object for a paper apart.
proof fn lemma_paper_keys()
    ensures
        "title"@.len() == 5,
        "summary"@.len() == 7,
        "summary"@[0] == 's',
        "authors"@.len() == 7,
        "authors"@[0] == 'a',
        "categories"@.len() == 10,
        "id"@.len() == 2,
        "published"@.len() == 9,
        "updated"@.len() == 7,
        "updated"@[0] == 'u',
        "primary_category"@.len() == 16,
        "url"@.len() == 3,
{
    reveal_strlit("title");
    reveal_strlit("summary");
    reveal_strlit("authors");
    reveal_strlit("categories");
    reveal_strlit("id");
    reveal_strlit("published");
    reveal_strlit("updated");
    reveal_strlit("primary_category");
    reveal_strlit("url");
}

/// The JSON object for a paper has each part of the paper under its own key, leaves
/// out the parts that are missing, and has no other key.
pub proof fn law_paper_object_has_each_part(paper: PaperView, key: Seq<char>)
    ensures
        paper_document(paper) is Object,
        ({
            let m = paper_document(paper)->Object_0;
            &&& shows(m, "title"@, Some(paper.title))
            &&& shows(m, "summary"@, Some(paper.summary))
            &&& shows(m, "id"@, paper.id)
            &&& shows(m, "published"@, paper.published)
            &&& shows(m, "updated"@, paper.updated)
            &&& shows(m, "primary_category"@, paper.primary_category)
            &&& shows(m, "url"@, paper.url)
            &&& m.contains_key("authors"@)
            &&& is_list_of(m["authors"@], paper.authors)
            &&& m.contains_key("categories"@)
            &&& is_list_of(m["categories"@], paper.categories)
            &&& m.contains_key(key) ==> key == "title"@ || key == "summary"@ || key == "id"@ || key
                == "published"@ || key == "updated"@ || key == "primary_category"@ || key == "url"@
                || key == "authors"@ || key == "categories"@
        }),
{
    lemma_paper_keys();
}

/// The parts of a paper are those of its entry: each text is that of the element of
/// its own name, decoded; the title and the summary have their white space
/// collapsed, and are empty without an element; the link is the related one, or
/// without it the alternate one.
pub proof fn law_paper_has_the_parts_of_its_entry(entry: Seq<char>)
    ensures
        ({
            let paper = paper_of(entry);
            &&& match tag_text(entry, "id"@) {
                Some(t) => paper.id == Some(decoded(t)),
                None => paper.id is None,
            }
            &&& match tag_text(entry, "published"@) {
                Some(t) => paper.published == Some(decoded(t)),
                None => paper.published is None,
            }
            &&& match tag_text(entry, "updated"@) {
                Some(t) => paper.updated == Some(decoded(t)),
                None => paper.updated is None,
            }
            &&& match tag_text(entry, "title"@) {
                Some(t) => paper.title == spaced(words(decoded(t))),
                None => paper.title.len() == 0,
            }
            &&& match tag_text(entry, "summary"@) {
                Some(t) => paper.summary == spaced(words(decoded(t))),
                None => paper.summary.len() == 0,
            }
            &&& paper.authors == author_names(entry)
            &&& paper.categories == sorted_distinct(category_terms(entry))
            &&& link_href(entry, "related"@) is Some ==> paper.url == link_href(
                entry,
                "related"@,
            )
            &&& link_href(entry, "related"@) is None ==> paper.url == link_href(
                entry,
                "alternate"@,
            )
            &&& match find(entry, "<arxiv:primary_category"@) {
                Some(i) => match attr_value(entry.skip(i), "term"@) {
                    Some(t) => paper.primary_category == Some(decoded(t)),
                    None => paper.primary_category is None,
                },
                None => paper.primary_category is None,
            }
        }),
{
}

/// A paper shows what it holds, and so do papers one by one.
pub proof fn law_papers_show_what_they_hold(paper: Paper, items: Seq<Paper>)
    ensures
        paper@.title == paper.title@,
        paper@.summary == paper.summary@,
        paper@.id == optional_text(paper.id),
        paper@.published == optional_text(paper.published),
        paper@.updated == optional_text(paper.updated),
        paper@.primary_category == optional_text(paper.primary_category),
        paper@.url == optional_text(paper.url),
        paper@.authors.len() == paper.authors@.len(),
        forall|i: int|
            0 <= i < paper.authors@.len() ==> #[trigger] paper@.authors[i] == paper.authors@[i]@,
        paper@.categories.len() == paper.categories@.len(),
        forall|i: int|
            0 <= i < paper.categories@.len() ==> #[trigger] paper@.categories[i]
                == paper.categories@[i]@,
        paper_views(items).len() == items.len(),
        forall|i: int| 0 <= i < items.len() ==> #[trigger] paper_views(items)[i] == items[i]@,
{
}

/// A text that was written to an element of an entry is reported under the name of
/// the element, whatever else the entry holds: as it is for the id and the dates,
/// and with its white space collapsed for the title and the summary.
#[verifier::spinoff_prover]
pub proof fn law_elements_are_reported_under_their_names(
    pre: Seq<char>,
    name: Seq<char>,
    text: Seq<char>,
    post: Seq<char>,
)
    requires
        name == "id"@ || name == "published"@ || name == "updated"@ || name == "title"@ || name
            == "summary"@,
        find(pre, seq!['<'] + name + seq!['>']) is None,
    ensures
        ({
            let entry = pre + (seq!['<'] + name + seq!['>']) + escaped(text) + (seq!['<', '/']
                + name + seq!['>']) + post;
            let document = paper_document(paper_of(entry));
            &&& document is Object
            &&& name == "title"@ || name == "summary"@ ==> shows(
                document->Object_0,
                name,
                Some(spaced(words(text))),
            )
            &&& name != "title"@ && name != "summary"@ ==> shows(
                document->Object_0,
                name,
                Some(text),
            )
        }),
{
    lemma_paper_keys();
    reveal_strlit("id");
    reveal_strlit("published");
    reveal_strlit("updated");
    reveal_strlit("title");
    reveal_strlit("summary");
    assert(!name.contains('<'));
    let entry = pre + (seq!['<'] + name + seq!['>']) + escaped(text) + (seq!['<', '/'] + name
        + seq!['>']) + post;
    law_escaped_element_reads_back(pre, name, text, post);
    law_paper_has_the_parts_of_its_entry(entry);
    law_paper_object_has_each_part(paper_of(entry), name);
}

/// The number that a feed reports is read, with white space around it or not.
#[verifier::spinoff_prover]
pub proof fn law_total_is_read(
    pre: Seq<char>,
    start: Seq<char>,
    n: u32,
    end: Seq<char>,
    post: Seq<char>,
)
    requires
        find(pre, "<opensearch:totalResults>"@) is None,
        forall|i: int| 0 <= i < start.len() ==> white(#[trigger] start[i]),
        forall|i: int| 0 <= i < end.len() ==> white(#[trigger] end[i]),
    ensures
        total_results(
            pre + "<opensearch:totalResults>"@ + (start + decimal(n as nat) + end)
                + "</opensearch:totalResults>"@ + post,
        ) == Some(n),
{
    let name = "opensearch:totalResults"@;
    let text = start + decimal(n as nat) + end;
    reveal_strlit("opensearch:totalResults");
    reveal_strlit("<opensearch:totalResults>");
    reveal_strlit("</opensearch:totalResults>");
    assert(open_tag(name) =~= "<opensearch:totalResults>"@);
    assert(close_tag(name) =~= "</opensearch:totalResults>"@);
    law_decimal_is_plain(n as nat);
    let digits = decimal(n as nat);
    lemma_find_none(text, close_tag(name));
    assert forall|i: int| !occurs_at(text, close_tag(name), i) by {
        if occurs_at(text, close_tag(name), i) {
            assert(text.subrange(i, i + close_tag(name).len())[0] == text[i]);
            if i < start.len() {
                assert(white(start[i]));
            } else if i < start.len() + digits.len() {
                assert(text[i] == digits[i - start.len()]);
            } else {
                assert(white(end[i - start.len() - digits.len()]));
            }
        }
    }
    law_element_reads_back(pre, name, text, post);
    lemma_trim_around(start, digits, end);
    law_decimal_reads_back(n);
}

/// The number is that of the element, read without the white space around it, and
/// without the element there is none.
pub proof fn law_total_is_that_of_its_element(xml: Seq<char>)
    ensures
        match tag_text(xml, "opensearch:totalResults"@) {
            Some(t) => total_results(xml) == parsed_u32(trim(t)),
            None => total_results(xml) is None,
        },
{
}

/// The term of the primary category is read back, whatever stands around it.
#[verifier::spinoff_prover]
pub proof fn law_primary_category_reads_back(
    pre: Seq<char>,
    mid: Seq<char>,
    term: Seq<char>,
    post: Seq<char>,
)
    requires
        find(pre, "<arxiv:primary_category"@) is None,
        find("<arxiv:primary_category"@ + mid, "term=\""@) is None,
    ensures
        ({
            let entry = pre + ("<arxiv:primary_category"@ + mid) + "term=\""@ + escaped(term)
                + seq!['"'] + post;
            &&& primary_category(entry) == Some(escaped(term))
            &&& paper_of(entry).primary_category == Some(term)
        }),
{
    let marker = "<arxiv:primary_category"@;
    let entry = pre + (marker + mid) + "term=\""@ + escaped(term) + seq!['"'] + post;
    reveal_strlit("<arxiv:primary_category");
    reveal_strlit("term=\"");
    reveal_strlit("term");
    let rest = mid + "term=\""@ + escaped(term) + seq!['"'] + post;
    assert(entry =~= pre + marker + rest);
    lemma_found_behind(pre, marker, rest);
    assert("term"@ + seq!['=', '"'] =~= "term=\""@);
    assert(entry.skip(pre.len() as int) =~= (marker + mid) + ("term"@ + seq!['=', '"'])
        + escaped(term) + seq!['"'] + post);
    law_escaped_attribute_reads_back(marker + mid, "term"@, term, post);
}

/// The names in pieces are those of the first pieces and then those of the others;
/// a piece has the name of its `name` element, before the end of the author, decoded
/// and collapsed, or none.
pub proof fn law_names_come_piece_by_piece(
    a: Seq<Seq<char>>,
    b: Seq<Seq<char>>,
    piece: Seq<char>,
    xml: Seq<char>,
)
    ensures
        names_in(Seq::empty()) == Seq::<Seq<char>>::empty(),
        names_in(a + b) == names_in(a) + names_in(b),
        match tag_text(before(piece, "</author>"@), "name"@) {
            Some(name) => names_in(seq![piece]) == seq![spaced(words(decoded(name)))],
            None => names_in(seq![piece]) == Seq::<Seq<char>>::empty(),
        },
        author_names(xml) == names_in(pieces_after(xml, "<author>"@)),
    decreases b.len(),
{
    let one = seq![piece];
    assert(one.drop_last() =~= Seq::empty());
    assert(names_in(one.drop_last()) =~= Seq::empty());
    if let Some(name) = tag_text(before(piece, "</author>"@), "name"@) {
        assert(names_in(one) =~= seq![spaced(words(decoded(name)))]);
    }
    if b.len() == 0 {
        assert(a + b =~= a);
        assert(names_in(a) + names_in(b) =~= names_in(a));
    } else {
        law_names_come_piece_by_piece(a, b.drop_last(), piece, xml);
        assert((a + b).drop_last() =~= a + b.drop_last());
        assert((a + b).last() == b.last());
        assert(names_in(a + b) =~= names_in(a) + names_in(b));
    }
}

proof fn lemma_author_tags()
    ensures
        "<author>"@.len() > 0,
        "</author>"@.len() > 0,
        "</author>"@[0] == "<author>"@[0],
        "</author>"@.last() == "<author>"@.last(),
        head_is_unique("<author>"@),
        tail_is_unique("<author>"@),
        head_is_unique("</author>"@),
        tail_is_unique("</author>"@),
        find("</author>"@, "<author>"@) is None,
{
    reveal_strlit("<author>");
    reveal_strlit("</author>");
    let s = "</author>"@;
    let p = "<author>"@;
    lemma_find_none(s, p);
    assert forall|j: int| !occurs_at(s, p, j) by {
        if occurs_at(s, p, j) {
            assert(s.subrange(j, j + p.len())[0] == s[j]);
            assert(s.subrange(j, j + p.len())[1] == s[j + 1]);
        }
    }
}

/// The authors of an entry are read in their order: the name of the first one, with
/// its white space collapsed, and then the names behind it.
#[verifier::spinoff_prover]
pub proof fn law_authors_are_read_in_order(
    pre: Seq<char>,
    before_name: Seq<char>,
    name: Seq<char>,
    behind_name: Seq<char>,
    rest: Seq<char>,
)
    requires
        find(pre, "<author>"@) is None,
        find(before_name, "<name>"@) is None,
        ({
            let inner = before_name + "<name>"@ + escaped(name) + "</name>"@ + behind_name;
            &&& find(inner, "<author>"@) is None
            &&& find(inner, "</author>"@) is None
        }),
    ensures
        author_names(
            pre + "<author>"@ + (before_name + "<name>"@ + escaped(name) + "</name>"@
                + behind_name) + "</author>"@ + rest,
        ) == seq![spaced(words(name))] + author_names(rest),
{
    let inner = before_name + "<name>"@ + escaped(name) + "</name>"@ + behind_name;
    let later = pieces_after(rest, "<author>"@);
    let piece = lemma_first_author(pre, inner, rest);
    assert(tag_text(inner, "name"@) == Some(escaped(name)) && decoded(escaped(name)) == name) by {
        reveal_strlit("name");
        reveal_strlit("<name>");
        reveal_strlit("</name>");
        assert(open_tag("name"@) =~= "<name>"@);
        assert(close_tag("name"@) =~= "</name>"@);
        law_escaped_element_reads_back(before_name, "name"@, name, behind_name);
    }
    law_names_come_piece_by_piece(seq![piece], later, piece, rest);
}

/// The first author is the first piece, and those behind it are the others.
#[verifier::spinoff_prover]
proof fn lemma_first_author(pre: Seq<char>, inner: Seq<char>, rest: Seq<char>) -> (piece: Seq<char>)
    requires
        find(pre, "<author>"@) is None,
        find(inner, "<author>"@) is None,
        find(inner, "</author>"@) is None,
    ensures
        pieces_after(pre + "<author>"@ + inner + "</author>"@ + rest, "<author>"@) == seq![piece]
            + pieces_after(rest, "<author>"@),
        before(piece, "</author>"@) == inner,
{
    lemma_author_tags();
    let tag = "<author>"@;
    let close = "</author>"@;
    let xml = pre + tag + inner + close + rest;
    let behind = inner + close + rest;
    assert(xml =~= pre + tag + behind);
    lemma_found_behind(pre, tag, behind);
    assert(xml.skip(pre.len() as int + tag.len()) =~= behind);
    let piece = before(behind, tag);
    assert(pieces_after(xml, tag) == seq![piece] + pieces_after(behind, tag));
    // The tags of the author stand in none of its parts, nor across them.
    lemma_not_across(inner, close, tag);
    assert((inner + close).last() == tag.last());
    lemma_found_later(inner + close, rest, tag);
    lemma_find_none(rest, tag);
    let n = (inner + close).len() as int;
    match find(rest, tag) {
        Some(i) => {
            assert(behind.skip(n + i + tag.len()) =~= rest.skip(i + tag.len()));
            assert(pieces_after(behind, tag) == pieces_after(rest, tag));
            assert(piece =~= inner + close + rest.take(i));
            lemma_found_behind(inner, close, rest.take(i));
        },
        None => {
            assert(pieces_after(behind, tag) =~= pieces_after(rest, tag));
            assert(piece =~= inner + close + rest);
            lemma_found_behind(inner, close, rest);
        },
    }
    assert(before(piece, close) =~= inner);
    piece
}

/// The target of a link is read back: it is that of the first link tag with the
/// relation, whatever stands before and behind the two attributes.
#[verifier::spinoff_prover]
pub proof fn law_link_reads_back(
    pre: Seq<char>,
    start: Seq<char>,
    rel: Seq<char>,
    mid: Seq<char>,
    href: Seq<char>,
    end: Seq<char>,
    post: Seq<char>,
)
    requires
        find(pre, "<link "@) is None,
        !rel.contains('"'),
        ({
            let head = "<link "@ + start;
            let tag = head + "rel=\""@ + rel + seq!['"'] + mid + "href=\""@ + escaped(href)
                + seq!['"'] + end;
            &&& find(tag, seq!['>']) is None
            &&& find(head, "rel=\""@) is None
            &&& find(head + "rel=\""@ + rel + seq!['"'] + mid, "href=\""@) is None
        }),
    ensures
        link_href(
            pre + ("<link "@ + start + "rel=\""@ + rel + seq!['"'] + mid + "href=\""@ + escaped(
                href,
            ) + seq!['"'] + end) + seq!['>'] + post,
            rel,
        ) == Some(href),
{
    let head = "<link "@ + start;
    let front = head + "rel=\""@ + rel + seq!['"'] + mid;
    let tag = front + "href=\""@ + escaped(href) + seq!['"'] + end;
    let xml = pre + tag + seq!['>'] + post;
    reveal_strlit("<link ");
    reveal_strlit("rel");
    reveal_strlit("rel=\"");
    reveal_strlit("href");
    reveal_strlit("href=\"");
    let inner = tag.skip("<link "@.len() as int);
    assert(tag =~= "<link "@ + inner);
    assert(!inner.contains('>')) by {
        if inner.contains('>') {
            let i = choose|i: int| 0 <= i < inner.len() && inner[i] == '>';
            let k = i + "<link "@.len();
            lemma_find_none(tag, seq!['>']);
            assert(tag[k] == '>');
            assert(tag.subrange(k, k + 1) =~= seq!['>']);
            assert(occurs_at(tag, seq!['>'], k));
        }
    }
    law_link_tags_read_back(pre, inner, post);
    assert("rel"@ + seq!['=', '"'] =~= "rel=\""@);
    assert("href"@ + seq!['=', '"'] =~= "href=\""@);
    let behind = mid + "href=\""@ + escaped(href) + seq!['"'] + end;
    assert(tag =~= head + ("rel"@ + seq!['=', '"']) + rel + seq!['"'] + behind);
    law_attribute_reads_back(head, "rel"@, rel, behind);
    assert(tag =~= front + ("href"@ + seq!['=', '"']) + escaped(href) + seq!['"'] + end);
    law_escaped_attribute_reads_back(front, "href"@, href, end);
    law_first_link_decides(xml, rel);
    assert(link_tags(xml)[0] == tag);
    assert(first_with_relation(link_tags(xml), rel, 0));
}

} // verus!
