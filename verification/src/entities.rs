//! The predefined entities of XML.
use vstd::prelude::*;

use crate::text::{
    chars_of, lemma_replace_step, occurs_at, replace_all, replace_chars, string_of,
};

verus! {

/// The text with the five predefined entities replaced, `&amp;` last.
pub open spec fn decoded(s: Seq<char>) -> Seq<char> {
    let s1 = replace_all(s, "&quot;"@, seq!['"']);
    let s2 = replace_all(s1, "&apos;"@, seq!['\'']);
    let s3 = replace_all(s2, "&lt;"@, seq!['<']);
    let s4 = replace_all(s3, "&gt;"@, seq!['>']);
    replace_all(s4, "&amp;"@, seq!['&'])
}

fn replace_entity(s: &[char], entity: &str, c: char) -> (r: Vec<char>)
    requires
        entity@.len() > 0,
    ensures
        r@ == replace_all(s@, entity@, seq![c]),
{
    let from = chars_of(entity);
    let mut to: Vec<char> = Vec::new();
    to.push(c);
    assert(to@ =~= seq![c]);
    replace_chars(s, from.as_slice(), to.as_slice())
}

/// The text with the five predefined entities replaced.
pub(crate) fn decode_chars(s: &[char]) -> (r: Vec<char>)
    ensures
        r@ == decoded(s@),
{
    proof {
        reveal_strlit("&quot;");
        reveal_strlit("&apos;");
        reveal_strlit("&lt;");
        reveal_strlit("&gt;");
        reveal_strlit("&amp;");
    }
    let s1 = replace_entity(s, "&quot;", '"');
    let s2 = replace_entity(s1.as_slice(), "&apos;", '\'');
    let s3 = replace_entity(s2.as_slice(), "&lt;", '<');
    let s4 = replace_entity(s3.as_slice(), "&gt;", '>');
    replace_entity(s4.as_slice(), "&amp;", '&')
}

/// Replaces the five predefined entities by the characters they stand for.
pub fn decode_xml_entities(input: &str) -> (r: String)
    ensures
        r@ == decoded(input@),
{
    let cs = chars_of(input);
    let out = decode_chars(cs.as_slice());
    string_of(out.as_slice())
}

// ---------------------------------------------------------------------------
// Laws
// ---------------------------------------------------------------------------

/// `s` starts with `word`.
pub open spec fn starts(s: Seq<char>, word: Seq<char>) -> bool {
    occurs_at(s, word, 0)
}

/// The entity of the name: an ampersand before it.
pub open spec fn entity(name: Seq<char>) -> Seq<char> {
    seq!['&'] + name
}

/// `word` has neither an ampersand nor `c`.
spec fn plain(word: Seq<char>, c: char) -> bool {
    forall|i: int| 0 <= i < word.len() ==> #[trigger] word[i] != '&' && word[i] != c
}

proof fn lemma_starts(s: Seq<char>, word: Seq<char>)
    requires
        word.len() > 0,
    ensures
        starts(s, word) <==> s.len() > 0 && s[0] == word[0] && starts(s.skip(1), word.skip(1)),
{
    if s.len() > 0 && word.len() <= s.len() {
        let n = word.len() as int;
        assert(s.subrange(0, n).skip(1) =~= s.skip(1).subrange(0, n - 1));
        if starts(s, word) {
            assert(s.subrange(0, n)[0] == s[0]);
        }
        if s[0] == word[0] && starts(s.skip(1), word.skip(1)) {
            assert(s.subrange(0, n) =~= seq![s[0]] + s.skip(1).subrange(0, n - 1));
            assert(word =~= seq![word[0]] + word.skip(1));
        }
    }
}

/// Replacing an entity neither makes nor breaks a plain word at the start.
proof fn lemma_word_stays(s: Seq<char>, word: Seq<char>, name: Seq<char>, c: char)
    requires
        plain(word, c),
    ensures
        starts(replace_all(s, entity(name), seq![c]), word) <==> starts(s, word),
        starts(s, word) ==> replace_all(s, entity(name), seq![c]) == word + replace_all(
            s.skip(word.len() as int),
            entity(name),
            seq![c],
        ),
    decreases word.len(),
{
    let from = entity(name);
    let to = seq![c];
    let r = replace_all(s, from, to);
    if word.len() == 0 {
        assert(r.subrange(0, 0) =~= word);
        assert(s.subrange(0, 0) =~= word);
        assert(s.skip(0) =~= s);
        assert(word + r =~= r);
    } else {
        lemma_replace_step(s, from, to);
        lemma_starts(s, word);
        lemma_starts(r, word);
        if s.len() > 0 {
            if starts(s, from) {
                assert(s.subrange(0, from.len() as int)[0] == s[0]);
                assert(r[0] == c);
            } else {
                let rest = replace_all(s.skip(1), from, to);
                assert(r.skip(1) =~= rest);
                let tail = word.skip(1);
                assert forall|i: int| 0 <= i < tail.len() implies #[trigger] tail[i] != '&'
                    && tail[i] != c by {
                    assert(tail[i] == word[i + 1]);
                }
                lemma_word_stays(s.skip(1), tail, name, c);
                if starts(s, word) {
                    assert(s.skip(1).skip(tail.len() as int) =~= s.skip(word.len() as int));
                    let end = replace_all(s.skip(word.len() as int), from, to);
                    assert(seq![s[0]] + (tail + end) =~= word + end);
                }
            }
        }
    }
}

/// What one pass does at the start of a text.
proof fn lemma_pass(s: Seq<char>, name: Seq<char>, c: char)
    requires
        s.len() > 0,
    ensures
        s[0] != '&' ==> replace_all(s, entity(name), seq![c]) == seq![s[0]] + replace_all(
            s.skip(1),
            entity(name),
            seq![c],
        ),
        s[0] == '&' && starts(s.skip(1), name) ==> replace_all(s, entity(name), seq![c])
            == seq![c] + replace_all(
            s.skip(1).skip(name.len() as int),
            entity(name),
            seq![c],
        ),
        s[0] == '&' && !starts(s.skip(1), name) ==> replace_all(s, entity(name), seq![c])
            == seq!['&'] + replace_all(s.skip(1), entity(name), seq![c]),
{
    let from = entity(name);
    lemma_replace_step(s, from, seq![c]);
    lemma_starts(s, from);
    assert(from.skip(1) =~= name);
    if starts(s.skip(1), name) {
        assert(s.skip(1).skip(name.len() as int) =~= s.skip(from.len() as int));
    }
}

/// One pass over a text that starts with another entity leaves that alone.
proof fn lemma_pass_other(t: Seq<char>, other: Seq<char>, name: Seq<char>, c: char)
    requires
        !starts(other + t, name),
        plain(other, c),
    ensures
        replace_all(entity(other) + t, entity(name), seq![c]) == entity(other) + replace_all(
            t,
            entity(name),
            seq![c],
        ),
{
    let s = entity(other) + t;
    assert(s.skip(1) =~= other + t);
    lemma_pass(s, name, c);
    assert((other + t).subrange(0, other.len() as int) =~= other);
    assert((other + t).skip(other.len() as int) =~= t);
    lemma_word_stays(other + t, other, name, c);
    let r = replace_all(t, entity(name), seq![c]);
    assert(seq!['&'] + (other + r) =~= entity(other) + r);
}

/// One pass over a text that starts with the entity replaces it.
proof fn lemma_pass_same(t: Seq<char>, name: Seq<char>, c: char)
    ensures
        replace_all(entity(name) + t, entity(name), seq![c]) == seq![c] + replace_all(
            t,
            entity(name),
            seq![c],
        ),
{
    let s = entity(name) + t;
    assert(s.skip(1) =~= name + t);
    assert((name + t).subrange(0, name.len() as int) =~= name);
    assert((name + t).skip(name.len() as int) =~= t);
    lemma_pass(s, name, c);
}

/// One pass keeps a first character that is no ampersand.
proof fn lemma_pass_char(d: char, t: Seq<char>, name: Seq<char>, c: char)
    requires
        d != '&',
    ensures
        replace_all(seq![d] + t, entity(name), seq![c]) == seq![d] + replace_all(
            t,
            entity(name),
            seq![c],
        ),
{
    let s = seq![d] + t;
    assert(s.skip(1) =~= t);
    lemma_pass(s, name, c);
}

/// One pass keeps an ampersand that starts no entity.
proof fn lemma_pass_ampersand(t: Seq<char>, name: Seq<char>, c: char)
    requires
        !starts(t, name),
    ensures
        replace_all(seq!['&'] + t, entity(name), seq![c]) == seq!['&'] + replace_all(
            t,
            entity(name),
            seq![c],
        ),
{
    let s = seq!['&'] + t;
    assert(s.skip(1) =~= t);
    lemma_pass(s, name, c);
}

/// The text decoded in one pass from the left.
pub open spec fn decoded_once(s: Seq<char>) -> Seq<char>
    decreases s.len(),
{
    if s.len() == 0 {
        s
    } else if s[0] == '&' && starts(s.skip(1), "quot;"@) {
        seq!['"'] + decoded_once(s.skip(1).skip("quot;"@.len() as int))
    } else if s[0] == '&' && starts(s.skip(1), "apos;"@) {
        seq!['\''] + decoded_once(s.skip(1).skip("apos;"@.len() as int))
    } else if s[0] == '&' && starts(s.skip(1), "lt;"@) {
        seq!['<'] + decoded_once(s.skip(1).skip("lt;"@.len() as int))
    } else if s[0] == '&' && starts(s.skip(1), "gt;"@) {
        seq!['>'] + decoded_once(s.skip(1).skip("gt;"@.len() as int))
    } else if s[0] == '&' && starts(s.skip(1), "amp;"@) {
        seq!['&'] + decoded_once(s.skip(1).skip("amp;"@.len() as int))
    } else {
        seq![s[0]] + decoded_once(s.skip(1))
    }
}

/// The five passes, by the names of the entities.
spec fn passes(s: Seq<char>) -> Seq<char> {
    let s1 = replace_all(s, entity("quot;"@), seq!['"']);
    let s2 = replace_all(s1, entity("apos;"@), seq!['\'']);
    let s3 = replace_all(s2, entity("lt;"@), seq!['<']);
    let s4 = replace_all(s3, entity("gt;"@), seq!['>']);
    replace_all(s4, entity("amp;"@), seq!['&'])
}

proof fn lemma_passes(s: Seq<char>)
    ensures
        decoded(s) == passes(s),
{
    lemma_entities_by_name();
}

/// A text that starts with a word has its characters.
proof fn lemma_starts_with(s: Seq<char>, word: Seq<char>)
    requires
        starts(s, word),
    ensures
        forall|i: int| 0 <= i < word.len() ==> s[i] == #[trigger] word[i],
{
    assert forall|i: int| 0 <= i < word.len() implies s[i] == #[trigger] word[i] by {
        assert(s.subrange(0, word.len() as int)[i] == s[i]);
    }
}

/// No name of an entity starts with one that is replaced before it.
proof fn lemma_names(t: Seq<char>)
    ensures
        !starts("apos;"@ + t, "quot;"@),
        !starts("lt;"@ + t, "quot;"@),
        !starts("lt;"@ + t, "apos;"@),
        !starts("gt;"@ + t, "quot;"@),
        !starts("gt;"@ + t, "apos;"@),
        !starts("gt;"@ + t, "lt;"@),
        !starts("amp;"@ + t, "quot;"@),
        !starts("amp;"@ + t, "apos;"@),
        !starts("amp;"@ + t, "lt;"@),
        !starts("amp;"@ + t, "gt;"@),
{
    reveal_strlit("quot;");
    reveal_strlit("apos;");
    reveal_strlit("lt;");
    reveal_strlit("gt;");
    reveal_strlit("amp;");
    let names = seq!["quot;"@, "apos;"@, "lt;"@, "gt;"@, "amp;"@];
    assert forall|i: int, j: int| 0 <= j < i < 5 implies !starts(
        #[trigger] names[i] + t,
        #[trigger] names[j],
    ) by {
        if starts(names[i] + t, names[j]) {
            lemma_starts_with(names[i] + t, names[j]);
            assert((names[i] + t)[0] == names[j][0]);
            assert((names[i] + t)[1] == names[j][1]);
            assert((names[i] + t)[0] == names[i][0]);
            assert((names[i] + t)[1] == names[i][1]);
        }
    }
    assert(!starts(names[1] + t, names[0]));
    assert(!starts(names[2] + t, names[0]));
    assert(!starts(names[2] + t, names[1]));
    assert(!starts(names[3] + t, names[0]));
    assert(!starts(names[3] + t, names[1]));
    assert(!starts(names[3] + t, names[2]));
    assert(!starts(names[4] + t, names[0]));
    assert(!starts(names[4] + t, names[1]));
    assert(!starts(names[4] + t, names[2]));
    assert(!starts(names[4] + t, names[3]));
}

/// No name of an entity has a character that a pass puts in.
proof fn lemma_names_plain(c: char)
    requires
        c == '"' || c == '\'' || c == '<' || c == '>',
    ensures
        plain("quot;"@, c),
        plain("apos;"@, c),
        plain("lt;"@, c),
        plain("gt;"@, c),
        plain("amp;"@, c),
{
    reveal_strlit("quot;");
    reveal_strlit("apos;");
    reveal_strlit("lt;");
    reveal_strlit("gt;");
    reveal_strlit("amp;");
}

proof fn lemma_passes_char(d: char, t: Seq<char>)
    requires
        d != '&',
    ensures
        passes(seq![d] + t) == seq![d] + passes(t),
{
    let t1 = replace_all(t, entity("quot;"@), seq!['"']);
    let t2 = replace_all(t1, entity("apos;"@), seq!['\'']);
    let t3 = replace_all(t2, entity("lt;"@), seq!['<']);
    let t4 = replace_all(t3, entity("gt;"@), seq!['>']);
    lemma_pass_char(d, t, "quot;"@, '"');
    lemma_pass_char(d, t1, "apos;"@, '\'');
    lemma_pass_char(d, t2, "lt;"@, '<');
    lemma_pass_char(d, t3, "gt;"@, '>');
    lemma_pass_char(d, t4, "amp;"@, '&');
}

proof fn lemma_passes_entities(t: Seq<char>)
    ensures
        passes(entity("quot;"@) + t) == seq!['"'] + passes(t),
        passes(entity("apos;"@) + t) == seq!['\''] + passes(t),
        passes(entity("lt;"@) + t) == seq!['<'] + passes(t),
        passes(entity("gt;"@) + t) == seq!['>'] + passes(t),
        passes(entity("amp;"@) + t) == seq!['&'] + passes(t),
{
    let t1 = replace_all(t, entity("quot;"@), seq!['"']);
    let t2 = replace_all(t1, entity("apos;"@), seq!['\'']);
    let t3 = replace_all(t2, entity("lt;"@), seq!['<']);
    let t4 = replace_all(t3, entity("gt;"@), seq!['>']);
    lemma_names(t);
    lemma_names(t1);
    lemma_names(t2);
    lemma_names(t3);
    lemma_names_plain('"');
    lemma_names_plain('\'');
    lemma_names_plain('<');
    lemma_names_plain('>');
    // The entity of the quote.
    lemma_pass_same(t, "quot;"@, '"');
    lemma_pass_char('"', t1, "apos;"@, '\'');
    lemma_pass_char('"', t2, "lt;"@, '<');
    lemma_pass_char('"', t3, "gt;"@, '>');
    lemma_pass_char('"', t4, "amp;"@, '&');
    // The entity of the apostrophe.
    lemma_pass_other(t, "apos;"@, "quot;"@, '"');
    lemma_pass_same(t1, "apos;"@, '\'');
    lemma_pass_char('\'', t2, "lt;"@, '<');
    lemma_pass_char('\'', t3, "gt;"@, '>');
    lemma_pass_char('\'', t4, "amp;"@, '&');
    // The entity of the less-than sign.
    lemma_pass_other(t, "lt;"@, "quot;"@, '"');
    lemma_pass_other(t1, "lt;"@, "apos;"@, '\'');
    lemma_pass_same(t2, "lt;"@, '<');
    lemma_pass_char('<', t3, "gt;"@, '>');
    lemma_pass_char('<', t4, "amp;"@, '&');
    // The entity of the greater-than sign.
    lemma_pass_other(t, "gt;"@, "quot;"@, '"');
    lemma_pass_other(t1, "gt;"@, "apos;"@, '\'');
    lemma_pass_other(t2, "gt;"@, "lt;"@, '<');
    lemma_pass_same(t3, "gt;"@, '>');
    lemma_pass_char('>', t4, "amp;"@, '&');
    // The entity of the ampersand.
    lemma_pass_other(t, "amp;"@, "quot;"@, '"');
    lemma_pass_other(t1, "amp;"@, "apos;"@, '\'');
    lemma_pass_other(t2, "amp;"@, "lt;"@, '<');
    lemma_pass_other(t3, "amp;"@, "gt;"@, '>');
    lemma_pass_same(t4, "amp;"@, '&');
}

/// An ampersand before none of the names is kept.
proof fn lemma_passes_ampersand(t: Seq<char>)
    requires
        !starts(t, "quot;"@),
        !starts(t, "apos;"@),
        !starts(t, "lt;"@),
        !starts(t, "gt;"@),
        !starts(t, "amp;"@),
    ensures
        passes(seq!['&'] + t) == seq!['&'] + passes(t),
{
    let t1 = replace_all(t, entity("quot;"@), seq!['"']);
    let t2 = replace_all(t1, entity("apos;"@), seq!['\'']);
    let t3 = replace_all(t2, entity("lt;"@), seq!['<']);
    let t4 = replace_all(t3, entity("gt;"@), seq!['>']);
    lemma_names_plain('"');
    lemma_names_plain('\'');
    lemma_names_plain('<');
    lemma_names_plain('>');
    lemma_pass_ampersand(t, "quot;"@, '"');
    lemma_word_stays(t, "apos;"@, "quot;"@, '"');
    lemma_pass_ampersand(t1, "apos;"@, '\'');
    lemma_word_stays(t, "lt;"@, "quot;"@, '"');
    lemma_word_stays(t1, "lt;"@, "apos;"@, '\'');
    lemma_pass_ampersand(t2, "lt;"@, '<');
    lemma_word_stays(t, "gt;"@, "quot;"@, '"');
    lemma_word_stays(t1, "gt;"@, "apos;"@, '\'');
    lemma_word_stays(t2, "gt;"@, "lt;"@, '<');
    lemma_pass_ampersand(t3, "gt;"@, '>');
    lemma_word_stays(t, "amp;"@, "quot;"@, '"');
    lemma_word_stays(t1, "amp;"@, "apos;"@, '\'');
    lemma_word_stays(t2, "amp;"@, "lt;"@, '<');
    lemma_word_stays(t3, "amp;"@, "gt;"@, '>');
    lemma_pass_ampersand(t4, "amp;"@, '&');
}

/// Behind an ampersand and a name stands the rest of the text.
proof fn lemma_entity_parts(s: Seq<char>, name: Seq<char>)
    requires
        s.len() > 0,
        s[0] == '&',
        starts(s.skip(1), name),
    ensures
        s == entity(name) + s.skip(1).skip(name.len() as int),
{
    lemma_starts_with(s.skip(1), name);
    assert(s =~= entity(name) + s.skip(1).skip(name.len() as int));
}

/// The five passes come to the same as one pass from the left: what one of them
/// puts in is never read again.
pub proof fn law_decoding_is_one_pass(s: Seq<char>)
    ensures
        decoded(s) == decoded_once(s),
    decreases s.len(),
{
    lemma_passes(s);
    if s.len() == 0 {
        lemma_replace_step(s, entity("quot;"@), seq!['"']);
        lemma_replace_step(s, entity("apos;"@), seq!['\'']);
        lemma_replace_step(s, entity("lt;"@), seq!['<']);
        lemma_replace_step(s, entity("gt;"@), seq!['>']);
        lemma_replace_step(s, entity("amp;"@), seq!['&']);
    } else {
        let rest = s.skip(1);
        assert(s =~= seq![s[0]] + rest);
        let name = if starts(rest, "quot;"@) {
            "quot;"@
        } else if starts(rest, "apos;"@) {
            "apos;"@
        } else if starts(rest, "lt;"@) {
            "lt;"@
        } else if starts(rest, "gt;"@) {
            "gt;"@
        } else {
            "amp;"@
        };
        if s[0] == '&' && starts(rest, name) {
            let t = rest.skip(name.len() as int);
            lemma_entity_parts(s, name);
            lemma_passes_entities(t);
            law_decoding_is_one_pass(t);
            lemma_passes(t);
        } else {
            law_decoding_is_one_pass(rest);
            lemma_passes(rest);
            if s[0] == '&' {
                lemma_passes_ampersand(rest);
            } else {
                lemma_passes_char(s[0], rest);
            }
        }
    }
}

/// A text without an ampersand stays as it is.
pub proof fn law_text_without_entities_stays(s: Seq<char>)
    requires
        !s.contains('&'),
    ensures
        decoded(s) == s,
    decreases s.len(),
{
    law_decoding_is_one_pass(s);
    if s.len() > 0 {
        let rest = s.skip(1);
        assert(s.contains(s[0]));
        assert forall|i: int| 0 <= i < rest.len() implies rest[i] != '&' by {
            assert(s.contains(s[i + 1]));
        }
        law_text_without_entities_stays(rest);
        law_decoding_is_one_pass(rest);
        assert(s =~= seq![s[0]] + rest);
    }
}

/// The character as it is written in XML text.
pub open spec fn escaped_char(c: char) -> Seq<char> {
    if c == '"' {
        entity("quot;"@)
    } else if c == '\'' {
        entity("apos;"@)
    } else if c == '<' {
        entity("lt;"@)
    } else if c == '>' {
        entity("gt;"@)
    } else if c == '&' {
        entity("amp;"@)
    } else {
        seq![c]
    }
}

/// The text as it is written in XML text.
pub open spec fn escaped(s: Seq<char>) -> Seq<char>
    decreases s.len(),
{
    if s.len() == 0 {
        s
    } else {
        escaped_char(s[0]) + escaped(s.skip(1))
    }
}

/// Decoding gives back every text that was written with entities.
pub proof fn law_escaped_text_decodes(s: Seq<char>)
    ensures
        decoded(escaped(s)) == s,
    decreases s.len(),
{
    if s.len() == 0 {
        law_text_without_entities_stays(s);
    } else {
        let t = escaped(s.skip(1));
        law_escaped_text_decodes(s.skip(1));
        lemma_passes(t);
        lemma_passes(escaped(s));
        lemma_passes_entities(t);
        if s[0] != '&' {
            lemma_passes_char(s[0], t);
        }
        assert(s =~= seq![s[0]] + s.skip(1));
    }
}

/// An escaped text has no angle bracket and no quote.
pub proof fn lemma_escaped_is_inert(s: Seq<char>, i: int)
    requires
        0 <= i < escaped(s).len(),
    ensures
        escaped(s)[i] != '<',
        escaped(s)[i] != '>',
        escaped(s)[i] != '"',
        escaped(s)[i] != '\'',
    decreases s.len(),
{
    let first = escaped_char(s[0]);
    if i < first.len() {
        lemma_names_plain('<');
        lemma_names_plain('>');
        lemma_names_plain('"');
        lemma_names_plain('\'');
        assert(escaped(s)[i] == first[i]);
        if i > 0 {
            let name = first.skip(1);
            assert(first[i] == name[i - 1]);
            if s[0] == '"' {
                assert(name =~= "quot;"@);
            } else if s[0] == '\'' {
                assert(name =~= "apos;"@);
            } else if s[0] == '<' {
                assert(name =~= "lt;"@);
            } else if s[0] == '>' {
                assert(name =~= "gt;"@);
            } else if s[0] == '&' {
                assert(name =~= "amp;"@);
            }
        }
    } else {
        lemma_escaped_is_inert(s.skip(1), i - first.len());
    }
}

/// Decoding reads a text from the left: each of the five entities gives its
/// character, every other character and every other ampersand stays, and what
/// follows is decoded by itself.
pub proof fn law_entities_are_decoded_from_the_left(c: char, t: Seq<char>)
    ensures
        decoded(Seq::empty()) == Seq::<char>::empty(),
        decoded("&quot;"@ + t) == seq!['"'] + decoded(t),
        decoded("&apos;"@ + t) == seq!['\''] + decoded(t),
        decoded("&lt;"@ + t) == seq!['<'] + decoded(t),
        decoded("&gt;"@ + t) == seq!['>'] + decoded(t),
        decoded("&amp;"@ + t) == seq!['&'] + decoded(t),
        c != '&' ==> decoded(seq![c] + t) == seq![c] + decoded(t),
        !"quot;"@.is_prefix_of(t) && !"apos;"@.is_prefix_of(t) && !"lt;"@.is_prefix_of(t)
            && !"gt;"@.is_prefix_of(t) && !"amp;"@.is_prefix_of(t) ==> decoded(seq!['&'] + t)
            == seq!['&'] + decoded(t),
{
    let none = Seq::<char>::empty();
    law_text_without_entities_stays(none);
    lemma_passes(t);
    lemma_passes("&quot;"@ + t);
    lemma_passes("&apos;"@ + t);
    lemma_passes("&lt;"@ + t);
    lemma_passes("&gt;"@ + t);
    lemma_passes("&amp;"@ + t);
    lemma_passes(seq![c] + t);
    lemma_passes(seq!['&'] + t);
    lemma_passes_entities(t);
    lemma_entities_by_name();
    if c != '&' {
        lemma_passes_char(c, t);
    }
    if !"quot;"@.is_prefix_of(t) && !"apos;"@.is_prefix_of(t) && !"lt;"@.is_prefix_of(t)
        && !"gt;"@.is_prefix_of(t) && !"amp;"@.is_prefix_of(t) {
        lemma_passes_ampersand(t);
    }
}

/// The entities are their names behind an ampersand.
proof fn lemma_entities_by_name()
    ensures
        entity("quot;"@) == "&quot;"@,
        entity("apos;"@) == "&apos;"@,
        entity("lt;"@) == "&lt;"@,
        entity("gt;"@) == "&gt;"@,
        entity("amp;"@) == "&amp;"@,
{
    reveal_strlit("&quot;");
    reveal_strlit("&apos;");
    reveal_strlit("&lt;");
    reveal_strlit("&gt;");
    reveal_strlit("&amp;");
    reveal_strlit("quot;");
    reveal_strlit("apos;");
    reveal_strlit("lt;");
    reveal_strlit("gt;");
    reveal_strlit("amp;");
    assert(entity("quot;"@) =~= "&quot;"@);
    assert(entity("apos;"@) =~= "&apos;"@);
    assert(entity("lt;"@) =~= "&lt;"@);
    assert(entity("gt;"@) =~= "&gt;"@);
    assert(entity("amp;"@) =~= "&amp;"@);
}

} // verus!
