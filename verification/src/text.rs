//! Text as a sequence of characters: searching, cutting and replacing.
use vstd::prelude::*;
use vstd::slice::slice_subrange;

verus! {

/// `String::push` appends one character.
pub assume_specification[ String::push ](s: &mut String, c: char)
    ensures
        final(s)@ == old(s)@.push(c),
;

// ---------------------------------------------------------------------------
// Searching
// ---------------------------------------------------------------------------

/// `pattern` stands in `s` at position `i`.
pub open spec fn occurs_at(s: Seq<char>, pattern: Seq<char>, i: int) -> bool {
    &&& 0 <= i
    &&& i + pattern.len() <= s.len()
    &&& s.subrange(i, i + pattern.len()) == pattern
}

/// `i` is the first position of `s` at which `pattern` stands.
pub open spec fn first_at(s: Seq<char>, pattern: Seq<char>, i: int) -> bool {
    &&& occurs_at(s, pattern, i)
    &&& forall|j: int| 0 <= j < i ==> !occurs_at(s, pattern, j)
}

/// The first position of `pattern` in `s`.
pub open spec fn find(s: Seq<char>, pattern: Seq<char>) -> Option<int> {
    if exists|i: int| first_at(s, pattern, i) {
        Some(choose|i: int| first_at(s, pattern, i))
    } else {
        None
    }
}

/// A pattern is found where it stands first.
pub proof fn lemma_find_at(s: Seq<char>, pattern: Seq<char>, i: int)
    requires
        first_at(s, pattern, i),
    ensures
        find(s, pattern) == Some(i),
{
    let k = choose|k: int| first_at(s, pattern, k);
    assert(first_at(s, pattern, k));
    if k < i {
        assert(!occurs_at(s, pattern, k));
    } else if i < k {
        assert(!occurs_at(s, pattern, i));
    }
}

/// A pattern that stands anywhere is found.
pub proof fn lemma_find_exists(s: Seq<char>, pattern: Seq<char>, i: int)
    requires
        occurs_at(s, pattern, i),
    ensures
        find(s, pattern) is Some,
        find(s, pattern)->0 <= i,
        first_at(s, pattern, find(s, pattern)->0),
    decreases i,
{
    if forall|j: int| 0 <= j < i ==> !occurs_at(s, pattern, j) {
        assert(first_at(s, pattern, i));
        lemma_find_at(s, pattern, i);
    } else {
        let j = choose|j: int| 0 <= j < i && occurs_at(s, pattern, j);
        lemma_find_exists(s, pattern, j);
    }
}

/// A pattern is not found where it stands nowhere, and only there.
pub proof fn lemma_find_none(s: Seq<char>, pattern: Seq<char>)
    ensures
        find(s, pattern) is None <==> (forall|i: int| !occurs_at(s, pattern, i)),
        find(s, pattern) matches Some(i) ==> first_at(s, pattern, i),
{
    if exists|i: int| occurs_at(s, pattern, i) {
        let i = choose|i: int| occurs_at(s, pattern, i);
        lemma_find_exists(s, pattern, i);
    } else {
        if exists|i: int| first_at(s, pattern, i) {
            let i = choose|i: int| first_at(s, pattern, i);
            assert(occurs_at(s, pattern, i));
        }
    }
}

fn stands_at(s: &[char], pattern: &[char], i: usize) -> (r: bool)
    requires
        i + pattern@.len() <= s@.len(),
    ensures
        r == occurs_at(s@, pattern@, i as int),
{
    let len: usize = s.len();
    let mut j: usize = 0;
    while j < pattern.len()
        invariant
            j <= pattern@.len(),
            len == s@.len(),
            i + pattern@.len() <= len,
            forall|k: int| 0 <= k < j ==> s@[i + k] == pattern@[k],
        decreases pattern@.len() - j,
    {
        if s[i + j] != pattern[j] {
            proof {
                assert(s@.subrange(i as int, i + pattern@.len())[j as int] == s@[i + j]);
            }
            return false;
        }
        j += 1;
    }
    assert(s@.subrange(i as int, i + pattern@.len()) =~= pattern@);
    true
}

/// The first position of `pattern` in `s`.
pub(crate) fn find_chars(s: &[char], pattern: &[char]) -> (r: Option<usize>)
    ensures
        match r {
            Some(i) => find(s@, pattern@) == Some(i as int) && i + pattern@.len() <= s@.len()
                <= usize::MAX,
            None => find(s@, pattern@) is None,
        },
{
    if pattern.len() > s.len() {
        proof {
            lemma_find_none(s@, pattern@);
        }
        return None;
    }
    let last: usize = s.len() - pattern.len();
    let mut i: usize = 0;
    while i < last
        invariant
            last + pattern@.len() == s@.len() <= usize::MAX,
            i <= last,
            forall|j: int| 0 <= j < i ==> !occurs_at(s@, pattern@, j),
        decreases last - i,
    {
        if stands_at(s, pattern, i) {
            proof {
                lemma_find_at(s@, pattern@, i as int);
            }
            return Some(i);
        }
        i += 1;
    }
    if stands_at(s, pattern, i) {
        proof {
            lemma_find_at(s@, pattern@, i as int);
        }
        Some(i)
    } else {
        proof {
            lemma_find_none(s@, pattern@);
        }
        None
    }
}

// ---------------------------------------------------------------------------
// Characters and strings
// ---------------------------------------------------------------------------

/// The text that an optional string holds.
pub open spec fn optional_text(s: Option<String>) -> Option<Seq<char>> {
    match s {
        Some(t) => Some(t@),
        None => None,
    }
}

/// The characters of `s`.
pub(crate) fn chars_of(s: &str) -> (r: Vec<char>)
    ensures
        r@ == s@,
{
    let mut out: Vec<char> = Vec::new();
    for c in it: s.chars()
        invariant
            out@ == it.seq().take(it.index() as int),
            it.seq() == s@,
    {
        out.push(c);
    }
    out
}

/// The string of the characters `cs`.
pub(crate) fn string_of(cs: &[char]) -> (r: String)
    ensures
        r@ == cs@,
{
    let mut out = String::new();
    let mut i: usize = 0;
    while i < cs.len()
        invariant
            i <= cs@.len(),
            out@ == cs@.take(i as int),
        decreases cs@.len() - i,
    {
        out.push(cs[i]);
        i += 1;
        assert(cs@.take(i as int) =~= cs@.take(i - 1).push(cs@[i - 1]));
    }
    assert(cs@.take(i as int) =~= cs@);
    out
}

/// Appends the characters `part` to `out`.
pub(crate) fn extend(out: &mut Vec<char>, part: &[char])
    ensures
        final(out)@ == old(out)@ + part@,
{
    let mut i: usize = 0;
    while i < part.len()
        invariant
            i <= part@.len(),
            out@ == old(out)@ + part@.take(i as int),
        decreases part@.len() - i,
    {
        out.push(part[i]);
        i += 1;
        assert(part@.take(i as int) =~= part@.take(i - 1).push(part@[i - 1]));
    }
    assert(part@.take(i as int) =~= part@);
}

/// The two texts are the same.
pub(crate) fn same_chars(a: &[char], b: &[char]) -> (r: bool)
    ensures
        r == (a@ == b@),
{
    if a.len() != b.len() {
        return false;
    }
    let mut i: usize = 0;
    while i < a.len()
        invariant
            i <= a@.len(),
            a@.len() == b@.len(),
            forall|k: int| 0 <= k < i ==> a@[k] == b@[k],
        decreases a@.len() - i,
    {
        if a[i] != b[i] {
            return false;
        }
        i += 1;
    }
    assert(a@ =~= b@);
    true
}

/// The two texts are the same.
pub(crate) fn same_text(a: &str, b: &str) -> (r: bool)
    ensures
        r == (a@ == b@),
{
    let left = a.to_owned();
    let right = b.to_owned();
    left == right
}

// ---------------------------------------------------------------------------
// Cutting
// ---------------------------------------------------------------------------

/// What stands between the first `open` and the first `close` after it.
pub open spec fn between(s: Seq<char>, open: Seq<char>, close: Seq<char>) -> Option<Seq<char>> {
    match find(s, open) {
        None => None,
        Some(i) => {
            let rest = s.skip(i + open.len());
            match find(rest, close) {
                None => None,
                Some(j) => Some(rest.take(j)),
            }
        },
    }
}

/// What stands before the first `pattern`; all of `s` where there is none.
pub open spec fn before(s: Seq<char>, pattern: Seq<char>) -> Seq<char> {
    match find(s, pattern) {
        None => s,
        Some(i) => s.take(i),
    }
}

/// The pieces that follow each `separator`, each up to the next one.
pub open spec fn pieces_after(s: Seq<char>, separator: Seq<char>) -> Seq<Seq<char>>
    decreases s.len(),
{
    match find(s, separator) {
        Some(i) if separator.len() > 0 => {
            proof {
                lemma_find_none(s, separator);
            }
            let rest = s.skip(i + separator.len());
            seq![before(rest, separator)] + pieces_after(rest, separator)
        },
        _ => Seq::empty(),
    }
}

/// `s` with each `from`, taken from the left, replaced by `to`.
pub open spec fn replace_all(s: Seq<char>, from: Seq<char>, to: Seq<char>) -> Seq<char>
    decreases s.len(),
{
    match find(s, from) {
        Some(i) if from.len() > 0 => {
            proof {
                lemma_find_none(s, from);
            }
            s.take(i) + to + replace_all(s.skip(i + from.len()), from, to)
        },
        _ => s,
    }
}

/// What stands between the first `open` and the first `close` after it.
pub(crate) fn between_chars<'a>(s: &'a [char], open: &[char], close: &[char]) -> (r: Option<
    &'a [char],
>)
    ensures
        match r {
            Some(t) => between(s@, open@, close@) == Some(t@),
            None => between(s@, open@, close@) is None,
        },
{
    match find_chars(s, open) {
        None => None,
        Some(i) => {
            let rest = slice_subrange(s, i + open.len(), s.len());
            assert(rest@ == s@.skip(i + open@.len()));
            match find_chars(rest, close) {
                None => None,
                Some(j) => Some(slice_subrange(rest, 0, j)),
            }
        },
    }
}

/// What stands before the first `pattern`; all of `s` where there is none.
pub(crate) fn before_chars<'a>(s: &'a [char], pattern: &[char]) -> (r: &'a [char])
    ensures
        r@ == before(s@, pattern@),
{
    match find_chars(s, pattern) {
        None => s,
        Some(i) => slice_subrange(s, 0, i),
    }
}

/// The texts that the slices hold.
pub open spec fn texts(pieces: Seq<&[char]>) -> Seq<Seq<char>> {
    pieces.map_values(|p: &[char]| p@)
}

/// The pieces that follow each `separator`, each up to the next one.
pub(crate) fn pieces_after_chars<'a>(s: &'a [char], separator: &[char]) -> (r: Vec<&'a [char]>)
    requires
        separator@.len() > 0,
    ensures
        texts(r@) == pieces_after(s@, separator@),
{
    let mut out: Vec<&'a [char]> = Vec::new();
    let mut rest: &'a [char] = s;
    assert(texts(out@) =~= Seq::empty());
    assert(texts(out@) + pieces_after(rest@, separator@) =~= pieces_after(s@, separator@));
    loop
        invariant
            separator@.len() > 0,
            texts(out@) + pieces_after(rest@, separator@) == pieces_after(s@, separator@),
        decreases rest@.len(),
    {
        match find_chars(rest, separator) {
            None => {
                assert(texts(out@) + pieces_after(rest@, separator@) =~= texts(out@));
                return out;
            },
            Some(i) => {
                let ghost earlier = out@;
                let ghost from = rest@;
                rest = slice_subrange(rest, i + separator.len(), rest.len());
                assert(rest@ == from.skip(i + separator@.len()));
                let piece = before_chars(rest, separator);
                out.push(piece);
                assert(texts(out@) =~= texts(earlier).push(piece@));
                assert(texts(out@) + pieces_after(rest@, separator@) =~= texts(earlier) + (
                seq![piece@] + pieces_after(rest@, separator@)));
            },
        }
    }
}

/// `s` with each `from`, taken from the left, replaced by `to`.
pub(crate) fn replace_chars(s: &[char], from: &[char], to: &[char]) -> (r: Vec<char>)
    requires
        from@.len() > 0,
    ensures
        r@ == replace_all(s@, from@, to@),
{
    let mut out: Vec<char> = Vec::new();
    let mut rest: &[char] = s;
    assert(out@ + replace_all(rest@, from@, to@) =~= replace_all(s@, from@, to@));
    loop
        invariant
            from@.len() > 0,
            out@ + replace_all(rest@, from@, to@) == replace_all(s@, from@, to@),
        decreases rest@.len(),
    {
        match find_chars(rest, from) {
            None => {
                extend(&mut out, rest);
                return out;
            },
            Some(i) => {
                let ghost earlier = out@;
                let ghost whole = rest@;
                extend(&mut out, slice_subrange(rest, 0, i));
                extend(&mut out, to);
                rest = slice_subrange(rest, i + from.len(), rest.len());
                assert(rest@ == whole.skip(i + from@.len()));
                assert(out@ + replace_all(rest@, from@, to@) =~= earlier + (whole.take(i as int)
                    + to@ + replace_all(rest@, from@, to@)));
            },
        }
    }
}

// ---------------------------------------------------------------------------
// Searching and replacing, step by step
// ---------------------------------------------------------------------------

/// A pattern that does not stand at the start is found where the rest has it.
pub proof fn lemma_find_step(s: Seq<char>, pattern: Seq<char>)
    requires
        s.len() > 0,
        !occurs_at(s, pattern, 0),
    ensures
        match find(s.skip(1), pattern) {
            Some(i) => find(s, pattern) == Some(i + 1),
            None => find(s, pattern) is None,
        },
{
    let rest = s.skip(1);
    lemma_find_none(rest, pattern);
    assert forall|j: int| 0 <= j implies occurs_at(rest, pattern, j) == occurs_at(
        s,
        pattern,
        j + 1,
    ) by {
        if j + 1 + pattern.len() <= s.len() {
            assert(rest.subrange(j, j + pattern.len()) =~= s.subrange(
                j + 1,
                j + 1 + pattern.len(),
            ));
        }
    }
    match find(rest, pattern) {
        Some(i) => {
            assert(occurs_at(s, pattern, i + 1));
            assert forall|j: int| 0 <= j < i + 1 implies !occurs_at(s, pattern, j) by {
                if j > 0 {
                    assert(!occurs_at(rest, pattern, j - 1));
                }
            }
            lemma_find_at(s, pattern, i + 1);
        },
        None => {
            assert forall|j: int| !occurs_at(s, pattern, j) by {
                if j > 0 {
                    assert(!occurs_at(rest, pattern, j - 1));
                }
            }
            lemma_find_none(s, pattern);
        },
    }
}

/// Replacing goes through a text from the left: what stands at the start is
/// replaced, or else its first character is kept.
pub proof fn lemma_replace_step(s: Seq<char>, from: Seq<char>, to: Seq<char>)
    requires
        from.len() > 0,
    ensures
        s.len() == 0 ==> replace_all(s, from, to) == s,
        occurs_at(s, from, 0) ==> replace_all(s, from, to) == to + replace_all(
            s.skip(from.len() as int),
            from,
            to,
        ),
        s.len() > 0 && !occurs_at(s, from, 0) ==> replace_all(s, from, to) == seq![s[0]]
            + replace_all(s.skip(1), from, to),
{
    lemma_find_none(s, from);
    if occurs_at(s, from, 0) {
        assert(first_at(s, from, 0));
        lemma_find_at(s, from, 0);
        assert(s.take(0) + to =~= to);
    } else if s.len() > 0 {
        lemma_find_step(s, from);
        let rest = s.skip(1);
        lemma_find_none(rest, from);
        match find(rest, from) {
            Some(i) => {
                assert(s.take(i + 1) =~= seq![s[0]] + rest.take(i));
                assert(s.skip(i + 1 + from.len()) =~= rest.skip(i + from.len()));
                let tail = replace_all(rest.skip(i + from.len()), from, to);
                assert(s.take(i + 1) + to + tail =~= seq![s[0]] + (rest.take(i) + to + tail));
            },
            None => {
                assert(s =~= seq![s[0]] + rest);
            },
        }
    }
}

/// The first character of the pattern stands nowhere else in it.
pub open spec fn head_is_unique(pattern: Seq<char>) -> bool {
    forall|i: int| 0 < i < pattern.len() ==> #[trigger] pattern[i] != pattern[0]
}

/// The last character of the pattern stands nowhere else in it.
pub open spec fn tail_is_unique(pattern: Seq<char>) -> bool {
    forall|i: int| 0 <= i < pattern.len() - 1 ==> #[trigger] pattern[i] != pattern.last()
}

/// A pattern that does not stand in `pre` is found right behind it.
pub proof fn lemma_found_behind(pre: Seq<char>, pattern: Seq<char>, post: Seq<char>)
    requires
        pattern.len() > 0,
        head_is_unique(pattern) || tail_is_unique(pattern),
        find(pre, pattern) is None,
    ensures
        find(pre + pattern + post, pattern) == Some(pre.len() as int),
{
    let s = pre + pattern + post;
    let n = pre.len() as int;
    let m = pattern.len() as int;
    lemma_find_none(pre, pattern);
    assert(s.subrange(n, n + m) =~= pattern);
    assert forall|j: int| 0 <= j < n implies !occurs_at(s, pattern, j) by {
        if occurs_at(s, pattern, j) {
            let found = s.subrange(j, j + m);
            if j + m <= n {
                assert(pre.subrange(j, j + m) =~= found);
                assert(occurs_at(pre, pattern, j));
            } else {
                assert(found[n - j] == s[n]);
                assert(s[n] == pattern[0]);
                assert(pattern[n - j] == pattern[0]);
                assert(found[m - 1] == s[j + m - 1]);
                assert(s[j + m - 1] == pattern[j + m - 1 - n]);
                assert(pattern[j + m - 1 - n] == pattern.last());
            }
        }
    }
    lemma_find_at(s, pattern, n);
}

/// A pattern that stands in neither of two texts does not stand across them,
/// where the second starts as the pattern does, or the first ends as it does.
pub proof fn lemma_not_across(a: Seq<char>, b: Seq<char>, pattern: Seq<char>)
    requires
        pattern.len() > 0,
        find(a, pattern) is None,
        find(b, pattern) is None,
        ({
            ||| head_is_unique(pattern) && b.len() > 0 && b[0] == pattern[0]
            ||| tail_is_unique(pattern) && a.len() > 0 && a.last() == pattern.last()
        }),
    ensures
        find(a + b, pattern) is None,
{
    let s = a + b;
    let n = a.len() as int;
    let m = pattern.len() as int;
    lemma_find_none(a, pattern);
    lemma_find_none(b, pattern);
    lemma_find_none(s, pattern);
    assert forall|j: int| !occurs_at(s, pattern, j) by {
        if occurs_at(s, pattern, j) {
            let found = s.subrange(j, j + m);
            if j + m <= n {
                assert(a.subrange(j, j + m) =~= found);
                assert(occurs_at(a, pattern, j));
            } else if j >= n {
                assert(b.subrange(j - n, j - n + m) =~= found);
                assert(occurs_at(b, pattern, j - n));
            } else {
                assert(found[n - j] == s[n]);
                assert(found[n - 1 - j] == s[n - 1]);
                assert(s[n] == b[0]);
                assert(s[n - 1] == a.last());
                assert(pattern[n - j] == b[0]);
                assert(pattern[n - 1 - j] == a.last());
            }
        }
    }
}

/// Behind a text that ends as the pattern does and does not have it, the pattern is
/// found where the rest has it.
pub proof fn lemma_found_later(a: Seq<char>, b: Seq<char>, pattern: Seq<char>)
    requires
        pattern.len() > 0,
        tail_is_unique(pattern),
        a.len() > 0,
        a.last() == pattern.last(),
        find(a, pattern) is None,
    ensures
        match find(b, pattern) {
            Some(i) => find(a + b, pattern) == Some(a.len() + i),
            None => find(a + b, pattern) is None,
        },
{
    let s = a + b;
    let n = a.len() as int;
    let m = pattern.len() as int;
    lemma_find_none(a, pattern);
    lemma_find_none(b, pattern);
    lemma_find_none(s, pattern);
    assert forall|j: int| 0 <= j < n implies !occurs_at(s, pattern, j) by {
        if occurs_at(s, pattern, j) {
            let found = s.subrange(j, j + m);
            if j + m <= n {
                assert(a.subrange(j, j + m) =~= found);
                assert(occurs_at(a, pattern, j));
            } else {
                assert(found[n - 1 - j] == s[n - 1]);
                assert(pattern[n - 1 - j] == pattern.last());
            }
        }
    }
    assert forall|j: int| n <= j implies occurs_at(s, pattern, j) == occurs_at(
        b,
        pattern,
        j - n,
    ) by {
        if j + m <= s.len() {
            assert(s.subrange(j, j + m) =~= b.subrange(j - n, j - n + m));
        }
    }
    match find(b, pattern) {
        Some(i) => {
            assert(occurs_at(s, pattern, n + i));
            assert forall|j: int| 0 <= j < n + i implies !occurs_at(s, pattern, j) by {
                if j >= n {
                    assert(!occurs_at(b, pattern, j - n));
                }
            }
            lemma_find_at(s, pattern, n + i);
        },
        None => {
            assert forall|j: int| !occurs_at(s, pattern, j) by {
                if j >= n {
                    assert(!occurs_at(b, pattern, j - n));
                }
            }
        },
    }
}

// ---------------------------------------------------------------------------
// Laws
// ---------------------------------------------------------------------------

/// A pattern that is found stands where it is found, and no way to split the text
/// around it starts earlier; a pattern that is not found splits no text.
pub proof fn law_first_place_is_found(s: Seq<char>, pattern: Seq<char>)
    ensures
        match find(s, pattern) {
            Some(i) => {
                &&& 0 <= i <= s.len()
                &&& s == s.take(i) + pattern + s.skip(i + pattern.len())
                &&& forall|a: Seq<char>, b: Seq<char>| s == #[trigger] (a + pattern + b) ==> i <= a.len()
            },
            None => forall|a: Seq<char>, b: Seq<char>| s != #[trigger] (a + pattern + b),
        },
{
    lemma_find_none(s, pattern);
    assert forall|a: Seq<char>, b: Seq<char>| s == #[trigger] (a + pattern + b) implies occurs_at(
        s,
        pattern,
        a.len() as int,
    ) by {
        assert(s.subrange(a.len() as int, a.len() as int + pattern.len()) =~= pattern);
    }
    if let Some(i) = find(s, pattern) {
        let rest = s.skip(i + pattern.len());
        assert forall|k: int| 0 <= k < pattern.len() implies s[i + k] == #[trigger] pattern[k] by {
            assert(s.subrange(i, i + pattern.len())[k] == s[i + k]);
        }
        assert(s =~= s.take(i) + pattern + rest);
    }
}

/// `s` is `part` with `a` before it and `b` behind it.
pub open spec fn enclosed(s: Seq<char>, a: Seq<char>, part: Seq<char>, b: Seq<char>) -> bool {
    s == a + part + b
}

/// What stands between two marks stands in the text between them.
pub proof fn law_between_is_in_the_text(s: Seq<char>, open: Seq<char>, close: Seq<char>)
    ensures
        between(s, open, close) matches Some(t) ==> exists|a: Seq<char>, b: Seq<char>|
            enclosed(s, a, open + t + close, b),
{
    law_first_place_is_found(s, open);
    if let Some(i) = find(s, open) {
        let rest = s.skip(i + open.len());
        law_first_place_is_found(rest, close);
        if let Some(j) = find(rest, close) {
            let a = s.take(i);
            let t = rest.take(j);
            let b = rest.skip(j + close.len());
            assert(s =~= a + (open + t + close) + b);
            assert(between(s, open, close)->0 == t);
            assert(enclosed(s, a, open + between(s, open, close)->0 + close, b));
        }
    }
}

/// Where one mark stands behind the other, something stands between them, and it
/// is the text from the first opening mark to the first closing mark behind it.
pub proof fn law_between_is_found(
    a: Seq<char>,
    open: Seq<char>,
    t: Seq<char>,
    close: Seq<char>,
    b: Seq<char>,
)
    ensures
        between(a + open + t + close + b, open, close) is Some,
        find(a + open + t + close + b, open) == Some(a.len() as int) && find(t + close + b, close)
            == Some(t.len() as int) ==> between(a + open + t + close + b, open, close) == Some(t),
{
    let s = a + open + t + close + b;
    law_first_place_is_found(s, open);
    assert(s =~= a + open + (t + close + b));
    let i = find(s, open)->0;
    let rest = s.skip(i + open.len());
    law_first_place_is_found(rest, close);
    let before_close = s.subrange(
        i + open.len(),
        a.len() as int + open.len() + t.len(),
    );
    assert(rest =~= before_close + close + b);
    if i == a.len() {
        assert(rest =~= t + close + b);
        assert((t + close + b).take(t.len() as int) =~= t);
    }
}

/// What stands before a pattern is all of the text up to its first place.
pub proof fn law_before_is_the_start(a: Seq<char>, pattern: Seq<char>, b: Seq<char>)
    ensures
        find(a + pattern + b, pattern) == Some(a.len() as int) ==> before(a + pattern + b, pattern)
            == a,
        find(a, pattern) is None ==> before(a, pattern) == a,
{
    assert((a + pattern + b).take(a.len() as int) =~= a);
}

/// The pieces, each with the separator before it.
pub open spec fn joined(separator: Seq<char>, pieces: Seq<Seq<char>>) -> Seq<char>
    decreases pieces.len(),
{
    if pieces.len() == 0 {
        Seq::empty()
    } else {
        separator + pieces[0] + joined(separator, pieces.skip(1))
    }
}

/// Cutting loses nothing: what stands before the first separator and the pieces,
/// with the separators between them, are the text, and none has the separator.
pub proof fn law_pieces_make_up_the_text(s: Seq<char>, separator: Seq<char>)
    requires
        separator.len() > 0,
    ensures
        s == before(s, separator) + joined(separator, pieces_after(s, separator)),
        find(before(s, separator), separator) is None,
        forall|i: int|
            0 <= i < pieces_after(s, separator).len() ==> find(
                #[trigger] pieces_after(s, separator)[i],
                separator,
            ) is None,
    decreases s.len(),
{
    let start = before(s, separator);
    let pieces = pieces_after(s, separator);
    lemma_find_none(s, separator);
    lemma_find_none(start, separator);
    match find(s, separator) {
        None => {
            assert(s =~= start + joined(separator, pieces));
        },
        Some(i) => {
            assert forall|j: int| !occurs_at(start, separator, j) by {
                if occurs_at(start, separator, j) {
                    assert(start.subrange(j, j + separator.len()) =~= s.subrange(
                        j,
                        j + separator.len(),
                    ));
                    assert(occurs_at(s, separator, j));
                }
            }
            law_first_place_is_found(s, separator);
            let rest = s.skip(i + separator.len());
            law_pieces_make_up_the_text(rest, separator);
            let later = pieces_after(rest, separator);
            assert(pieces == seq![before(rest, separator)] + later);
            assert(pieces.skip(1) =~= later);
            assert(joined(separator, pieces) =~= separator + rest);
            assert(s =~= start + joined(separator, pieces));
            assert forall|k: int| 0 <= k < pieces.len() implies find(
                #[trigger] pieces[k],
                separator,
            ) is None by {
                if k > 0 {
                    assert(pieces[k] == later[k - 1]);
                }
            }
        },
    }
}

/// Replacing goes on behind what it replaced: the text up to the first place of
/// the pattern stays, the replacement follows, and then the rest, replaced. A text
/// without the pattern stays.
pub proof fn law_replacing_goes_on_behind(
    a: Seq<char>,
    from: Seq<char>,
    to: Seq<char>,
    b: Seq<char>,
)
    requires
        from.len() > 0,
    ensures
        find(a + from + b, from) == Some(a.len() as int) ==> replace_all(a + from + b, from, to)
            == a + to + replace_all(b, from, to),
        find(a, from) is None ==> replace_all(a, from, to) == a,
{
    let s = a + from + b;
    assert(s.take(a.len() as int) =~= a);
    assert(s.skip(a.len() as int + from.len()) =~= b);
}

/// A string that is there is shown with its characters, and one that is missing as
/// missing.
pub proof fn law_optional_text_shows_the_string(s: Option<String>)
    ensures
        s matches Some(t) ==> optional_text(s) == Some(t@),
        s is None ==> optional_text(s) is None,
{
}

/// The texts of slices are their characters, in the order of the slices.
pub proof fn law_texts_show_the_slices(pieces: Seq<&[char]>)
    ensures
        texts(pieces).len() == pieces.len(),
        forall|i: int| 0 <= i < pieces.len() ==> #[trigger] texts(pieces)[i] == pieces[i]@,
{
}

} // verus!
