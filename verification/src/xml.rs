//! Reading pieces of XML text: elements and attributes.
use vstd::prelude::*;

use crate::entities::{decoded, escaped, law_escaped_text_decodes, lemma_escaped_is_inert};
use crate::text::{
    between, between_chars, chars_of, enclosed, extend, find, head_is_unique,
    law_between_is_in_the_text, lemma_find_none, lemma_found_behind, occurs_at, optional_text, string_of, tail_is_unique,
};

verus! {

/// The tag that opens an element without attributes.
pub open spec fn open_tag(tag: Seq<char>) -> Seq<char> {
    seq!['<'] + tag + seq!['>']
}

/// The tag that closes an element.
pub open spec fn close_tag(tag: Seq<char>) -> Seq<char> {
    seq!['<', '/'] + tag + seq!['>']
}

/// The text of the first element `tag`: all that stands between its opening
/// tag and the next closing one.
pub open spec fn tag_text(xml: Seq<char>, tag: Seq<char>) -> Option<Seq<char>> {
    between(xml, open_tag(tag), close_tag(tag))
}

/// The value of the first attribute `attr`: all that stands between the quotes
/// behind its name.
pub open spec fn attr_value(fragment: Seq<char>, attr: Seq<char>) -> Option<Seq<char>> {
    between(fragment, attr + seq!['=', '"'], seq!['"'])
}

/// The text of the first element `tag`.
pub(crate) fn tag_chars<'a>(xml: &'a [char], tag: &str) -> (r: Option<&'a [char]>)
    ensures
        match r {
            Some(t) => tag_text(xml@, tag@) == Some(t@),
            None => tag_text(xml@, tag@) is None,
        },
{
    let name = chars_of(tag);
    let mut open: Vec<char> = Vec::new();
    open.push('<');
    extend(&mut open, name.as_slice());
    open.push('>');
    let mut close: Vec<char> = Vec::new();
    close.push('<');
    close.push('/');
    extend(&mut close, name.as_slice());
    close.push('>');
    assert(open@ =~= open_tag(tag@));
    assert(close@ =~= close_tag(tag@));
    between_chars(xml, open.as_slice(), close.as_slice())
}

/// The value of the first attribute `attr`.
pub(crate) fn attr_chars<'a>(fragment: &'a [char], attr: &str) -> (r: Option<&'a [char]>)
    ensures
        match r {
            Some(t) => attr_value(fragment@, attr@) == Some(t@),
            None => attr_value(fragment@, attr@) is None,
        },
{
    let mut key = chars_of(attr);
    key.push('=');
    key.push('"');
    let mut quote: Vec<char> = Vec::new();
    quote.push('"');
    assert(key@ =~= attr@ + seq!['=', '"']);
    assert(quote@ =~= seq!['"']);
    between_chars(fragment, key.as_slice(), quote.as_slice())
}

/// The text of the first element `tag` of the XML text.
pub fn extract_tag_text(xml: &str, tag: &str) -> (r: Option<String>)
    ensures
        optional_text(r) == tag_text(xml@, tag@),
{
    let cs = chars_of(xml);
    match tag_chars(cs.as_slice(), tag) {
        Some(t) => Some(string_of(t)),
        None => None,
    }
}

/// The value of the first attribute `attr` of the piece of a tag.
pub fn extract_attr(tag_fragment: &str, attr: &str) -> (r: Option<String>)
    ensures
        optional_text(r) == attr_value(tag_fragment@, attr@),
{
    let cs = chars_of(tag_fragment);
    match attr_chars(cs.as_slice(), attr) {
        Some(t) => Some(string_of(t)),
        None => None,
    }
}

// ---------------------------------------------------------------------------
// Laws
// ---------------------------------------------------------------------------

/// A text between `open` and `close` is read back, whatever stands around it,
/// where `open` does not stand before it and `close` not in it.
proof fn lemma_between_reads_back(
    pre: Seq<char>,
    open: Seq<char>,
    text: Seq<char>,
    close: Seq<char>,
    post: Seq<char>,
)
    requires
        open.len() > 0,
        close.len() > 0,
        head_is_unique(open) || tail_is_unique(open),
        head_is_unique(close) || tail_is_unique(close),
        find(pre, open) is None,
        find(text, close) is None,
    ensures
        between(pre + open + text + close + post, open, close) == Some(text),
{
    let s = pre + open + text + close + post;
    let rest = text + close + post;
    assert(s =~= pre + open + rest);
    lemma_found_behind(pre, open, rest);
    assert(s.skip(pre.len() as int + open.len()) =~= rest);
    lemma_found_behind(text, close, post);
    assert(rest.take(text.len() as int) =~= text);
}

/// The text of an element is read back, whatever stands around it: its opening
/// tag must not stand before it, nor its closing tag in it, and the name of a
/// tag has no angle bracket.
pub proof fn law_element_reads_back(
    pre: Seq<char>,
    tag: Seq<char>,
    text: Seq<char>,
    post: Seq<char>,
)
    requires
        !tag.contains('<'),
        find(pre, open_tag(tag)) is None,
        find(text, close_tag(tag)) is None,
    ensures
        tag_text(pre + open_tag(tag) + text + close_tag(tag) + post, tag) == Some(text),
{
    lemma_tags(tag);
    lemma_between_reads_back(pre, open_tag(tag), text, close_tag(tag), post);
}

/// Every text is read back from an element that it was written to with entities,
/// once it is decoded.
pub proof fn law_escaped_element_reads_back(
    pre: Seq<char>,
    tag: Seq<char>,
    text: Seq<char>,
    post: Seq<char>,
)
    requires
        !tag.contains('<'),
        find(pre, open_tag(tag)) is None,
    ensures
        ({
            let xml = pre + open_tag(tag) + escaped(text) + close_tag(tag) + post;
            &&& tag_text(xml, tag) == Some(escaped(text))
            &&& decoded(escaped(text)) == text
        }),
{
    lemma_find_none(escaped(text), close_tag(tag));
    assert forall|i: int| !occurs_at(escaped(text), close_tag(tag), i) by {
        if occurs_at(escaped(text), close_tag(tag), i) {
            assert(escaped(text).subrange(i, i + close_tag(tag).len())[0] == escaped(text)[i]);
            lemma_escaped_is_inert(text, i);
        }
    }
    law_element_reads_back(pre, tag, escaped(text), post);
    law_escaped_text_decodes(text);
}

/// The value of an attribute is read back, whatever stands around it: the
/// attribute must not stand before it, nor a quote in it or in the name.
pub proof fn law_attribute_reads_back(
    pre: Seq<char>,
    attr: Seq<char>,
    value: Seq<char>,
    post: Seq<char>,
)
    requires
        !attr.contains('"'),
        !value.contains('"'),
        find(pre, attr + seq!['=', '"']) is None,
    ensures
        attr_value(pre + (attr + seq!['=', '"']) + value + seq!['"'] + post, attr) == Some(value),
{
    let key = attr + seq!['=', '"'];
    let quote = seq!['"'];
    assert forall|i: int| 0 <= i < key.len() - 1 implies #[trigger] key[i] != key.last() by {
        if i < attr.len() {
            assert(attr.contains(attr[i]));
        }
    }
    lemma_find_none(value, quote);
    assert forall|i: int| !occurs_at(value, quote, i) by {
        if occurs_at(value, quote, i) {
            assert(value.subrange(i, i + 1)[0] == value[i]);
            assert(value.contains(value[i]));
        }
    }
    lemma_between_reads_back(pre, key, value, quote, post);
}

/// Every text is read back from an attribute that it was written to with
/// entities, once it is decoded.
pub proof fn law_escaped_attribute_reads_back(
    pre: Seq<char>,
    attr: Seq<char>,
    text: Seq<char>,
    post: Seq<char>,
)
    requires
        !attr.contains('"'),
        find(pre, attr + seq!['=', '"']) is None,
    ensures
        ({
            let xml = pre + (attr + seq!['=', '"']) + escaped(text) + seq!['"'] + post;
            &&& attr_value(xml, attr) == Some(escaped(text))
            &&& decoded(escaped(text)) == text
        }),
{
    if escaped(text).contains('"') {
        let i = choose|i: int| 0 <= i < escaped(text).len() && escaped(text)[i] == '"';
        lemma_escaped_is_inert(text, i);
    }
    law_attribute_reads_back(pre, attr, escaped(text), post);
    law_escaped_text_decodes(text);
}

proof fn lemma_tags(tag: Seq<char>)
    requires
        !tag.contains('<'),
    ensures
        head_is_unique(open_tag(tag)),
        head_is_unique(close_tag(tag)),
{
    let open = open_tag(tag);
    let close = close_tag(tag);
    assert forall|i: int| 0 < i < open.len() implies #[trigger] open[i] != open[0] by {
        if i - 1 < tag.len() {
            assert(tag.contains(tag[i - 1]));
        }
    }
    assert forall|i: int| 0 < i < close.len() implies #[trigger] close[i] != close[0] by {
        if 2 <= i && i - 2 < tag.len() {
            assert(tag.contains(tag[i - 2]));
        }
    }
}

/// The text of an element stands between its tags, and the value of an attribute
/// between the quotes behind its name.
pub proof fn law_marks_enclose_what_is_read(xml: Seq<char>, name: Seq<char>)
    ensures
        tag_text(xml, name) == between(
            xml,
            seq!['<'] + name + seq!['>'],
            seq!['<', '/'] + name + seq!['>'],
        ),
        attr_value(xml, name) == between(xml, name + seq!['=', '"'], seq!['"']),
        tag_text(xml, name) matches Some(t) ==> exists|a: Seq<char>, b: Seq<char>|
            enclosed(
                xml,
                a,
                seq!['<'] + name + seq!['>'] + t + (seq!['<', '/'] + name + seq!['>']),
                b,
            ),
        attr_value(xml, name) matches Some(t) ==> exists|a: Seq<char>, b: Seq<char>|
            enclosed(xml, a, name + seq!['=', '"'] + t + seq!['"'], b),
{
    let open = seq!['<'] + name + seq!['>'];
    let close = seq!['<', '/'] + name + seq!['>'];
    law_between_is_in_the_text(xml, open, close);
    law_between_is_in_the_text(xml, name + seq!['=', '"'], seq!['"']);
}

} // verus!
