//! White space: trimming, and words joined by single spaces.
use vstd::prelude::*;
use vstd::slice::slice_subrange;

use crate::text::{chars_of, extend, string_of};

verus! {

/// The characters with the Unicode property White_Space.
pub open spec fn white(c: char) -> bool {
    ||| '\u{9}' <= c <= '\u{d}'
    ||| c == '\u{20}'
    ||| c == '\u{85}'
    ||| c == '\u{a0}'
    ||| c == '\u{1680}'
    ||| '\u{2000}' <= c <= '\u{200a}'
    ||| c == '\u{2028}'
    ||| c == '\u{2029}'
    ||| c == '\u{202f}'
    ||| c == '\u{205f}'
    ||| c == '\u{3000}'
}

/// `c` has the Unicode property White_Space.
pub fn is_white(c: char) -> (r: bool)
    ensures
        r == white(c),
{
    ('\u{9}' <= c && c <= '\u{d}') || c == '\u{20}' || c == '\u{85}' || c == '\u{a0}' || c
        == '\u{1680}' || ('\u{2000}' <= c && c <= '\u{200a}') || c == '\u{2028}' || c
        == '\u{2029}' || c == '\u{202f}' || c == '\u{205f}' || c == '\u{3000}'
}

/// Every character of `s` is white space.
pub open spec fn blank(s: Seq<char>) -> bool {
    forall|i: int| 0 <= i < s.len() ==> white(#[trigger] s[i])
}

/// `s` without the white space at its two ends.
pub open spec fn trim(s: Seq<char>) -> Seq<char>
    decreases s.len(),
{
    if s.len() == 0 {
        s
    } else if white(s.first()) {
        trim(s.drop_first())
    } else if white(s.last()) {
        trim(s.drop_last())
    } else {
        s
    }
}

/// The length of the run of other characters at the start of `s`.
pub open spec fn word_len(s: Seq<char>) -> nat
    decreases s.len(),
{
    if s.len() == 0 || white(s.first()) {
        0
    } else {
        1 + word_len(s.drop_first())
    }
}

/// The run is as long as it can be, and has no white space.
pub proof fn lemma_word_len(s: Seq<char>)
    ensures
        word_len(s) <= s.len(),
        forall|i: int| 0 <= i < word_len(s) ==> !white(#[trigger] s[i]),
        word_len(s) < s.len() ==> white(s[word_len(s) as int]),
    decreases s.len(),
{
    if s.len() > 0 && !white(s.first()) {
        let t = s.drop_first();
        lemma_word_len(t);
        assert forall|i: int| 0 <= i < word_len(s) implies !white(#[trigger] s[i]) by {
            if i > 0 {
                assert(s[i] == t[i - 1]);
            }
        }
    }
}

/// The words of `s`: its longest runs without white space.
pub open spec fn words(s: Seq<char>) -> Seq<Seq<char>>
    decreases s.len(),
{
    if s.len() == 0 {
        Seq::empty()
    } else if white(s.first()) {
        words(s.drop_first())
    } else {
        proof {
            lemma_word_len(s);
        }
        let n = word_len(s) as int;
        seq![s.take(n)] + words(s.skip(n))
    }
}

/// The words, with one space between each two.
pub open spec fn spaced(parts: Seq<Seq<char>>) -> Seq<char>
    decreases parts.len(),
{
    if parts.len() == 0 {
        Seq::empty()
    } else if parts.len() == 1 {
        parts[0]
    } else {
        spaced(parts.drop_last()).push(' ') + parts.last()
    }
}

/// White space at the start does not change what is left after trimming.
proof fn lemma_trim_start(s: Seq<char>, n: int)
    requires
        0 <= n <= s.len(),
        forall|i: int| 0 <= i < n ==> white(#[trigger] s[i]),
    ensures
        trim(s) == trim(s.skip(n)),
    decreases n,
{
    if n == 0 {
        assert(s.skip(0) =~= s);
    } else {
        assert(white(s[0]));
        let t = s.drop_first();
        assert forall|i: int| 0 <= i < n - 1 implies white(#[trigger] t[i]) by {
            assert(t[i] == s[i + 1]);
        }
        lemma_trim_start(t, n - 1);
        assert(t.skip(n - 1) =~= s.skip(n));
    }
}

/// Nor does white space at the end, after a start that is not white space.
proof fn lemma_trim_end(s: Seq<char>, n: int)
    requires
        0 < n <= s.len(),
        !white(s[0]),
        !white(s[n - 1]),
        forall|i: int| n <= i < s.len() ==> white(#[trigger] s[i]),
    ensures
        trim(s) == s.take(n),
    decreases s.len(),
{
    if n == s.len() {
        assert(s.take(n) =~= s);
    } else {
        assert(white(s.last()));
        let t = s.drop_last();
        lemma_trim_end(t, n);
        assert(t.take(n) =~= s.take(n));
    }
}

/// Only white space is trimmed away entirely.
pub proof fn lemma_trim_blank(s: Seq<char>)
    ensures
        trim(s).len() == 0 <==> blank(s),
    decreases s.len(),
{
    if s.len() == 0 {
    } else if white(s.first()) {
        let t = s.drop_first();
        lemma_trim_blank(t);
        assert forall|i: int| 0 <= i < s.len() && blank(t) implies white(#[trigger] s[i]) by {
            if i > 0 {
                assert(s[i] == t[i - 1]);
            }
        }
        assert forall|i: int| 0 <= i < t.len() && blank(s) implies white(#[trigger] t[i]) by {
            assert(t[i] == s[i + 1]);
        }
    } else if white(s.last()) {
        let t = s.drop_last();
        lemma_trim_blank(t);
        assert(t[0] == s[0]);
        assert(!blank(t));
        assert(!blank(s));
    } else {
        assert(!white(s[0]));
    }
}

/// `s` without the white space at its two ends.
pub(crate) fn trim_chars<'a>(s: &'a [char]) -> (r: &'a [char])
    ensures
        r@ == trim(s@),
{
    let len: usize = s.len();
    let mut start: usize = 0;
    while start < len && is_white(s[start])
        invariant
            start <= len,
            len == s@.len(),
            forall|i: int| 0 <= i < start ==> white(#[trigger] s@[i]),
        decreases len - start,
    {
        start += 1;
    }
    proof {
        lemma_trim_start(s@, start as int);
    }
    let mut end: usize = len;
    while end > start && is_white(s[end - 1])
        invariant
            start <= end <= len,
            len == s@.len(),
            forall|i: int| end <= i < len ==> white(#[trigger] s@[i]),
        decreases end,
    {
        end -= 1;
    }
    let ghost t = s@.skip(start as int);
    proof {
        if start == len {
            assert(t =~= Seq::empty());
        } else {
            assert(!white(s@[start as int]));
            assert(t[0] == s@[start as int]);
            assert(end > start);
            assert(t[end - start - 1] == s@[end - 1]);
            assert forall|i: int| end - start <= i < t.len() implies white(#[trigger] t[i]) by {
                assert(t[i] == s@[start + i]);
            }
            lemma_trim_end(t, end - start);
        }
        assert(t.take(end - start) =~= s@.subrange(start as int, end as int));
    }
    slice_subrange(s, start, end)
}

/// The text is empty or white space only.
pub fn is_blank(s: &str) -> (r: bool)
    ensures
        r == blank(s@),
{
    let cs = chars_of(s);
    let t = trim_chars(cs.as_slice());
    proof {
        lemma_trim_blank(s@);
    }
    t.len() == 0
}

/// The words of `s` joined by single spaces.
pub(crate) fn collapse_chars(s: &[char]) -> (r: Vec<char>)
    ensures
        r@ == spaced(words(s@)),
{
    let len: usize = s.len();
    let mut out: Vec<char> = Vec::new();
    let mut first = true;
    let ghost mut done: Seq<Seq<char>> = Seq::empty();
    let mut i: usize = 0;
    assert(s@.skip(0) =~= s@);
    assert(done + words(s@.skip(0)) =~= words(s@));
    while i < len
        invariant
            i <= len,
            len == s@.len(),
            first == (done.len() == 0),
            out@ == spaced(done),
            done + words(s@.skip(i as int)) == words(s@),
        decreases len - i,
    {
        let ghost rest = s@.skip(i as int);
        assert(rest.first() == s@[i as int]);
        if is_white(s[i]) {
            i += 1;
            assert(rest.drop_first() =~= s@.skip(i as int));
        } else {
            let from: usize = i;
            while i < len && !is_white(s[i])
                invariant
                    from <= i <= len,
                    len == s@.len(),
                    forall|k: int| from <= k < i ==> !white(#[trigger] s@[k]),
                decreases len - i,
            {
                i += 1;
            }
            let word = slice_subrange(s, from, i);
            proof {
                lemma_word_len(rest);
                let n = word_len(rest) as int;
                if n < i - from {
                    assert(rest[n] == s@[from + n]);
                }
                if n > i - from {
                    assert(rest[i - from] == s@[i as int]);
                }
                assert(rest.take(n) =~= word@);
                assert(rest.skip(n) =~= s@.skip(i as int));
                let next = done.push(word@);
                assert(next.drop_last() =~= done);
                assert(done + (seq![word@] + words(s@.skip(i as int))) =~= next + words(
                    s@.skip(i as int),
                ));
                done = next;
            }
            if first {
                first = false;
                extend(&mut out, word);
                assert(out@ =~= word@);
            } else {
                out.push(' ');
                extend(&mut out, word);
            }
        }
    }
    assert(s@.skip(i as int) =~= Seq::empty());
    assert(done + words(s@.skip(i as int)) =~= done);
    out
}

/// Joins the words of the text by single spaces, and drops the white space at
/// its ends.
pub fn collapse_ws(s: &str) -> (r: String)
    ensures
        r@ == spaced(words(s@)),
{
    let cs = chars_of(s);
    let out = collapse_chars(cs.as_slice());
    string_of(out.as_slice())
}

// ---------------------------------------------------------------------------
// Laws
// ---------------------------------------------------------------------------

/// A text without white space, and not empty.
pub open spec fn is_word(s: Seq<char>) -> bool {
    s.len() > 0 && (forall|i: int| 0 <= i < s.len() ==> !white(#[trigger] s[i]))
}

proof fn lemma_whole_word(w: Seq<char>)
    requires
        forall|i: int| 0 <= i < w.len() ==> !white(#[trigger] w[i]),
    ensures
        word_len(w) == w.len(),
    decreases w.len(),
{
    lemma_word_len(w);
    if word_len(w) < w.len() {
        assert(white(w[word_len(w) as int]));
    }
}

proof fn lemma_words_of_word(w: Seq<char>)
    requires
        is_word(w),
    ensures
        words(w) == seq![w],
{
    lemma_whole_word(w);
    assert(!white(w[0]));
    assert(w.take(w.len() as int) =~= w);
    assert(w.skip(w.len() as int) =~= Seq::empty());
    assert(words(w) =~= seq![w] + words(w.skip(w.len() as int)));
    assert(words(w) =~= seq![w]);
}

/// A word behind a space is one more word.
proof fn lemma_words_append(s: Seq<char>, w: Seq<char>)
    requires
        is_word(w),
    ensures
        words(s.push(' ') + w) == words(s).push(w),
    decreases s.len(),
{
    let t = s.push(' ') + w;
    if s.len() == 0 {
        assert(white(t.first()));
        assert(t.drop_first() =~= w);
        lemma_words_of_word(w);
        assert(words(s).push(w) =~= seq![w]);
    } else if white(s.first()) {
        lemma_words_append(s.drop_first(), w);
        assert(t.first() == s.first());
        assert(t.drop_first() =~= s.drop_first().push(' ') + w);
    } else {
        lemma_word_len(s);
        lemma_word_len(t);
        let n = word_len(s) as int;
        let m = word_len(t) as int;
        assert(t.first() == s.first());
        assert(t[n] == if n < s.len() {
            s[n]
        } else {
            ' '
        });
        if m < n {
            assert(t[m] == s[m]);
        }
        assert(m == n);
        assert(n > 0);
        assert(t.take(n) =~= s.take(n));
        assert(t.skip(n) =~= s.skip(n).push(' ') + w);
        lemma_words_append(s.skip(n), w);
        assert(seq![s.take(n)] + words(s.skip(n)).push(w) =~= (seq![s.take(n)] + words(
            s.skip(n),
        )).push(w));
    }
}

/// The words of a text are words: none is empty or has white space in it.
pub proof fn law_words_are_words(s: Seq<char>)
    ensures
        forall|i: int| 0 <= i < words(s).len() ==> is_word(#[trigger] words(s)[i]),
    decreases s.len(),
{
    if s.len() > 0 {
        if white(s.first()) {
            law_words_are_words(s.drop_first());
            assert(words(s) == words(s.drop_first()));
        } else {
            lemma_word_len(s);
            let n = word_len(s) as int;
            law_words_are_words(s.skip(n));
            assert(words(s) == seq![s.take(n)] + words(s.skip(n)));
            assert forall|i: int| 0 <= i < words(s).len() implies is_word(
                #[trigger] words(s)[i],
            ) by {
                if i == 0 {
                    let w = s.take(n);
                    assert forall|k: int| 0 <= k < w.len() implies !white(#[trigger] w[k]) by {
                        assert(w[k] == s[k]);
                    }
                } else {
                    assert(words(s)[i] == words(s.skip(n))[i - 1]);
                }
            }
        }
    }
}

/// Joining words by single spaces and taking the words gives them back.
proof fn lemma_spaced_words(parts: Seq<Seq<char>>)
    requires
        forall|i: int| 0 <= i < parts.len() ==> is_word(#[trigger] parts[i]),
    ensures
        words(spaced(parts)) == parts,
    decreases parts.len(),
{
    if parts.len() == 0 {
        assert(words(spaced(parts)) =~= parts);
    } else if parts.len() == 1 {
        lemma_words_of_word(parts[0]);
        assert(parts =~= seq![parts[0]]);
    } else {
        let front = parts.drop_last();
        assert forall|i: int| 0 <= i < front.len() implies is_word(#[trigger] front[i]) by {
            assert(front[i] == parts[i]);
        }
        lemma_spaced_words(front);
        lemma_words_append(spaced(front), parts.last());
        assert(front.push(parts.last()) =~= parts);
    }
}

/// Collapsing keeps the words of a text, and collapsing again changes nothing.
pub proof fn law_collapsing_keeps_the_words(s: Seq<char>)
    ensures
        words(spaced(words(s))) == words(s),
        spaced(words(spaced(words(s)))) == spaced(words(s)),
{
    law_words_are_words(s);
    lemma_spaced_words(words(s));
}

/// Trimming leaves no white space at the ends, and trimming again changes
/// nothing.
pub proof fn law_trimming_is_final(s: Seq<char>)
    ensures
        trim(s).len() > 0 ==> !white(trim(s).first()) && !white(trim(s).last()),
        trim(trim(s)) == trim(s),
    decreases s.len(),
{
    if s.len() > 0 {
        if white(s.first()) {
            law_trimming_is_final(s.drop_first());
        } else if white(s.last()) {
            law_trimming_is_final(s.drop_last());
        }
    }
}

/// Trimming takes white space at the two ends, and nothing else.
pub proof fn law_trimming_takes_only_white_space(s: Seq<char>) -> (ends: (Seq<char>, Seq<char>))
    ensures
        s == ends.0 + trim(s) + ends.1,
        forall|i: int| 0 <= i < ends.0.len() ==> white(#[trigger] ends.0[i]),
        forall|i: int| 0 <= i < ends.1.len() ==> white(#[trigger] ends.1[i]),
    decreases s.len(),
{
    if s.len() > 0 && white(s.first()) {
        let (a, b) = law_trimming_takes_only_white_space(s.drop_first());
        let start = seq![s.first()] + a;
        assert(s =~= seq![s.first()] + s.drop_first());
        assert(s =~= start + trim(s) + b);
        assert forall|i: int| 0 <= i < start.len() implies white(#[trigger] start[i]) by {
            if i > 0 {
                assert(start[i] == a[i - 1]);
            }
        }
        (start, b)
    } else if s.len() > 0 && white(s.last()) {
        let (a, b) = law_trimming_takes_only_white_space(s.drop_last());
        let end = b.push(s.last());
        assert(s =~= s.drop_last().push(s.last()));
        assert(s =~= a + trim(s) + end);
        (a, end)
    } else {
        let none = Seq::<char>::empty();
        assert(s =~= none + trim(s) + none);
        (none, none)
    }
}

/// A text is blank if and only if it has no words, and if nothing is left of it
/// after trimming.
pub proof fn law_blank_texts_have_no_words(s: Seq<char>)
    ensures
        (forall|i: int| 0 <= i < s.len() ==> white(#[trigger] s[i])) <==> words(s).len() == 0,
        (forall|i: int| 0 <= i < s.len() ==> white(#[trigger] s[i])) <==> trim(s).len() == 0,
        (forall|i: int| 0 <= i < s.len() ==> white(#[trigger] s[i])) <==> blank(s),
    decreases s.len(),
{
    lemma_trim_blank(s);
    if s.len() > 0 {
        if white(s.first()) {
            let t = s.drop_first();
            law_blank_texts_have_no_words(t);
            if blank(t) {
                assert forall|i: int| 0 <= i < s.len() implies white(#[trigger] s[i]) by {
                    if i > 0 {
                        assert(s[i] == t[i - 1]);
                    }
                }
            }
            if blank(s) {
                assert forall|i: int| 0 <= i < t.len() implies white(#[trigger] t[i]) by {
                    assert(t[i] == s[i + 1]);
                }
            }
        } else {
            assert(!white(s[0]));
            assert(words(s).len() > 0);
        }
    }
}

/// White space parts words: those before it and those behind it are the words.
/// A text that is one word is its only word, and an empty text has none.
pub proof fn law_white_space_parts_words(a: Seq<char>, w: char, b: Seq<char>)
    requires
        white(w),
    ensures
        words(a + seq![w] + b) == words(a) + words(b),
        is_word(b) ==> words(b) == seq![b],
        words(Seq::empty()) == Seq::<Seq<char>>::empty(),
    decreases a.len(),
{
    if is_word(b) {
        lemma_words_of_word(b);
    }
    let s = a + seq![w] + b;
    if a.len() == 0 {
        assert(s.first() == w);
        assert(s.drop_first() =~= b);
        assert(words(a) + words(b) =~= words(b));
    } else if white(a.first()) {
        law_white_space_parts_words(a.drop_first(), w, b);
        assert(s.first() == a.first());
        assert(s.drop_first() =~= a.drop_first() + seq![w] + b);
    } else {
        lemma_word_len(a);
        lemma_word_len(s);
        let n = word_len(a) as int;
        let m = word_len(s) as int;
        assert(s.first() == a.first());
        assert(s[n] == if n < a.len() {
            a[n]
        } else {
            w
        });
        if m < n {
            assert(s[m] == a[m]);
        }
        assert(m == n);
        assert(n > 0);
        assert(s.take(n) =~= a.take(n));
        assert(s.skip(n) =~= a.skip(n) + seq![w] + b);
        law_white_space_parts_words(a.skip(n), w, b);
        assert(seq![a.take(n)] + (words(a.skip(n)) + words(b)) =~= (seq![a.take(n)] + words(
            a.skip(n),
        )) + words(b));
    }
}

/// Words that are joined have single spaces between them and no other white space.
proof fn lemma_single_spaces(parts: Seq<Seq<char>>, i: int)
    requires
        forall|k: int| 0 <= k < parts.len() ==> is_word(#[trigger] parts[k]),
        0 <= i < spaced(parts).len(),
    ensures
        white(spaced(parts)[i]) ==> spaced(parts)[i] == ' ' && 0 < i < spaced(parts).len() - 1
            && !white(spaced(parts)[i - 1]) && !white(spaced(parts)[i + 1]),
        !white(spaced(parts).last()),
    decreases parts.len(),
{
    let s = spaced(parts);
    if parts.len() == 1 {
        assert(is_word(parts[0]));
        assert(!white(parts[0][i]));
        assert(!white(parts[0][s.len() - 1]));
    } else {
        let front = parts.drop_last();
        let last = parts.last();
        assert(is_word(parts[parts.len() - 1]));
        assert forall|k: int| 0 <= k < front.len() implies is_word(#[trigger] front[k]) by {
            assert(front[k] == parts[k]);
        }
        let f = spaced(front);
        assert(is_word(front[0]));
        assert(f.len() > 0) by {
            if front.len() == 1 {
                assert(f == front[0]);
            } else {
                assert(is_word(front[front.len() - 1]));
            }
        }
        let n = f.len() as int;
        lemma_single_spaces(front, n - 1);
        assert(s =~= f.push(' ') + last);
        assert(s[n] == ' ');
        assert(s[n - 1] == f[n - 1]);
        assert(s[n + 1] == last[0]);
        assert(!white(last[0]));
        assert(s.last() == last[last.len() - 1]);
        if i < n {
            lemma_single_spaces(front, i);
            assert(s[i] == f[i]);
            if white(f[i]) {
                assert(s[i - 1] == f[i - 1]);
                assert(s[i + 1] == f[i + 1]);
            }
        } else if i > n {
            assert(s[i] == last[i - n - 1]);
        }
    }
}

/// Collapsed text has no white space but single spaces between other characters.
pub proof fn law_collapsed_text_has_single_spaces(s: Seq<char>, i: int)
    requires
        0 <= i < spaced(words(s)).len(),
        white(spaced(words(s))[i]),
    ensures
        spaced(words(s))[i] == ' ',
        0 < i < spaced(words(s)).len() - 1,
        !white(spaced(words(s))[i - 1]),
        !white(spaced(words(s))[i + 1]),
{
    law_words_are_words(s);
    lemma_single_spaces(words(s), i);
}

/// White space around a text that neither starts nor ends with it is trimmed away.
pub proof fn lemma_trim_around(start: Seq<char>, text: Seq<char>, end: Seq<char>)
    requires
        forall|i: int| 0 <= i < start.len() ==> white(#[trigger] start[i]),
        forall|i: int| 0 <= i < end.len() ==> white(#[trigger] end[i]),
        text.len() > 0,
        !white(text.first()),
        !white(text.last()),
    ensures
        trim(start + text + end) == text,
{
    let s = start + text + end;
    let n = start.len() as int;
    assert forall|i: int| 0 <= i < n implies white(#[trigger] s[i]) by {
        assert(s[i] == start[i]);
    }
    lemma_trim_start(s, n);
    let rest = s.skip(n);
    assert(rest =~= text + end);
    let m = text.len() as int;
    assert(rest[0] == text[0]);
    assert(rest[m - 1] == text[m - 1]);
    assert forall|i: int| m <= i < rest.len() implies white(#[trigger] rest[i]) by {
        assert(rest[i] == end[i - m]);
    }
    lemma_trim_end(rest, m);
    assert(rest.take(m) =~= text);
}

} // verus!
