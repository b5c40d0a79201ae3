//! Character-level helpers on string views: searching, line splitting and
//! whitespace-separated words, each with a specification over `Seq<char>`.

use vstd::prelude::*;

verus! {

/// Number of leading characters of `s` that differ from `c`
/// (the index of the first `c`, or the length when there is none).
pub open spec fn count_until(s: Seq<char>, c: char) -> nat
    decreases s.len(),
{
    if s.len() == 0 {
        0
    } else if s[0] == c {
        0
    } else {
        1 + count_until(s.drop_first(), c)
    }
}

/// `n` is the position of the first `c` in `s`, or `s.len()` when `c` is absent.
pub open spec fn is_first_index(s: Seq<char>, c: char, n: int) -> bool {
    &&& 0 <= n <= s.len()
    &&& forall|i: int| 0 <= i < n ==> s[i] != c
    &&& n < s.len() ==> s[n] == c
}

/// `count_until` is exactly the first-index position.
pub proof fn lemma_count_until(s: Seq<char>, c: char)
    ensures
        is_first_index(s, c, count_until(s, c) as int),
    decreases s.len(),
{
    if s.len() > 0 && s[0] != c {
        lemma_count_until(s.drop_first(), c);
        assert forall|i: int| 0 <= i < count_until(s, c) implies s[i] != c by {
            if i > 0 {
                assert(s[i] == s.drop_first()[i - 1]);
            }
        }
    }
}

/// The first-index position is unique.
pub proof fn lemma_first_index_unique(s: Seq<char>, c: char, n: int)
    requires
        is_first_index(s, c, n),
    ensures
        n == count_until(s, c),
{
    lemma_count_until(s, c);
    let m = count_until(s, c) as int;
    if n < m {
        assert(s[n] == c);
    } else if m < n {
        assert(s[m] == c);
    }
}

/// Position of the first `c` in `s` at or after `from`, or the length of `s`.
pub fn find_char(s: &str, from: usize, c: char) -> (r: usize)
    requires
        from <= s@.len(),
    ensures
        r == from + count_until(s@.skip(from as int), c),
        from <= r <= s@.len(),
{
    let len = s.unicode_len();
    let mut i = from;
    while i < len
        invariant
            from <= i <= len,
            len == s@.len(),
            forall|j: int| from <= j < i ==> s@[j] != c,
        decreases len - i,
    {
        if s.get_char(i) == c {
            proof {
                let t = s@.skip(from as int);
                assert(is_first_index(t, c, i - from)) by {
                    assert forall|j: int| 0 <= j < i - from implies t[j] != c by {
                        assert(t[j] == s@[from + j]);
                    }
                }
                lemma_first_index_unique(t, c, i - from);
            }
            return i;
        }
        i = i + 1;
    }
    proof {
        let t = s@.skip(from as int);
        assert(is_first_index(t, c, len - from)) by {
            assert forall|j: int| 0 <= j < len - from implies t[j] != c by {
                assert(t[j] == s@[from + j]);
            }
        }
        lemma_first_index_unique(t, c, len - from);
    }
    len
}


/// A line without its line terminator: a `'\r'` is removed only where it
/// stood just before the `'\n'` that ended the line.
pub open spec fn strip_cr(l: Seq<char>) -> Seq<char> {
    if l.len() > 0 && l.last() == '\r' {
        l.drop_last()
    } else {
        l
    }
}

/// The lines of a text: pieces separated by `'\n'`, each with a `'\r'`
/// before its `'\n'` removed; a final line terminator ends the last line
/// and starts no new, empty one. The empty text has no lines.
pub open spec fn spec_lines(s: Seq<char>) -> Seq<Seq<char>>
    decreases s.len(),
{
    if s.len() == 0 {
        seq![]
    } else {
        let n = count_until(s, '\n');
        if n >= s.len() {
            seq![s]
        } else {
            seq![strip_cr(s.take(n as int))] + spec_lines(s.skip(n + 1int))
        }
    }
}

/// The views of a vector of strings.
pub open spec fn views(v: Seq<String>) -> Seq<Seq<char>> {
    v.map_values(|x: String| x@)
}

/// An owned copy of the characters `from..to` of `s`.
pub fn substring(s: &str, from: usize, to: usize) -> (r: String)
    requires
        from <= to <= s@.len(),
    ensures
        r@ == s@.subrange(from as int, to as int),
{
    s.substring_char(from, to).to_owned()
}

/// Splits a text into its lines (see `spec_lines`).
pub fn split_lines(s: &str) -> (r: Vec<String>)
    ensures
        views(r@) == spec_lines(s@),
{
    let len = s.unicode_len();
    let mut lines: Vec<String> = Vec::new();
    let mut pos: usize = 0;
    proof {
        assert(s@.skip(0) =~= s@);
        assert(views(lines@) =~= Seq::<Seq<char>>::empty());
        assert(views(lines@) + spec_lines(s@) =~= spec_lines(s@));
    }
    while pos < len
        invariant
            pos <= len,
            len == s@.len(),
            views(lines@) + spec_lines(s@.skip(pos as int)) == spec_lines(s@),
        decreases len - pos,
    {
        let ghost t = s@.skip(pos as int);
        let ghost before = views(lines@);
        let end = find_char(s, pos, '\n');
        if end == len {
            let line = substring(s, pos, len);
            lines.push(line);
            proof {
                assert(s@.subrange(pos as int, len as int) =~= t);
                assert(spec_lines(t) == seq![t]);
                assert(views(lines@) =~= before.push(t));
                assert(s@.skip(len as int) =~= Seq::<char>::empty());
                assert(views(lines@) + spec_lines(s@.skip(len as int)) =~= before
                    + spec_lines(t));
            }
            pos = len;
        } else {
            let mut stop = end;
            if end > pos && s.get_char(end - 1) == '\r' {
                stop = end - 1;
            }
            let line = substring(s, pos, stop);
            lines.push(line);
            proof {
                let n = count_until(t, '\n');
                assert(n == end - pos);
                assert(t.take(n as int) =~= s@.subrange(pos as int, end as int));
                assert(strip_cr(t.take(n as int)) =~= s@.subrange(pos as int, stop as int));
                assert(t.skip(n + 1int) =~= s@.skip(end + 1));
                assert(spec_lines(t) == seq![strip_cr(t.take(n as int))] + spec_lines(t.skip(n + 1int)));
                assert(views(lines@) =~= before.push(s@.subrange(pos as int, stop as int)));
                assert(views(lines@) + spec_lines(s@.skip(end + 1)) =~= before + spec_lines(t));
            }
            pos = end + 1;
        }
    }
    proof {
        assert(s@.skip(pos as int) =~= Seq::<char>::empty());
        assert(views(lines@) =~= views(lines@) + spec_lines(s@.skip(pos as int)));
    }
    lines
}


/// The characters with the Unicode `White_Space` property.
pub open spec fn is_whitespace(c: char) -> bool {
    ||| ('\u{9}' <= c && c <= '\u{d}')
    ||| c == ' '
    ||| c == '\u{85}'
    ||| c == '\u{a0}'
    ||| c == '\u{1680}'
    ||| ('\u{2000}' <= c && c <= '\u{200a}')
    ||| c == '\u{2028}'
    ||| c == '\u{2029}'
    ||| c == '\u{202f}'
    ||| c == '\u{205f}'
    ||| c == '\u{3000}'
}

/// Tests whether `c` is a whitespace character.
pub fn is_whitespace_char(c: char) -> (r: bool)
    ensures
        r == is_whitespace(c),
{
    ('\u{9}' <= c && c <= '\u{d}') || c == ' ' || c == '\u{85}' || c == '\u{a0}' || c == '\u{1680}'
        || ('\u{2000}' <= c && c <= '\u{200a}') || c == '\u{2028}' || c == '\u{2029}' || c
        == '\u{202f}' || c == '\u{205f}' || c == '\u{3000}'
}

/// Number of leading non-whitespace characters of `s`.
pub open spec fn count_word(s: Seq<char>) -> nat
    decreases s.len(),
{
    if s.len() == 0 {
        0
    } else if is_whitespace(s[0]) {
        0
    } else {
        1 + count_word(s.drop_first())
    }
}

/// `n` is where the leading run of non-whitespace characters of `s` ends.
pub open spec fn is_word_end(s: Seq<char>, n: int) -> bool {
    &&& 0 <= n <= s.len()
    &&& forall|i: int| 0 <= i < n ==> !is_whitespace(s[i])
    &&& n < s.len() ==> is_whitespace(s[n])
}

pub proof fn lemma_count_word(s: Seq<char>)
    ensures
        is_word_end(s, count_word(s) as int),
    decreases s.len(),
{
    if s.len() > 0 && !is_whitespace(s[0]) {
        lemma_count_word(s.drop_first());
        assert forall|i: int| 0 <= i < count_word(s) implies !is_whitespace(s[i]) by {
            if i > 0 {
                assert(s[i] == s.drop_first()[i - 1]);
            }
        }
    }
}

pub proof fn lemma_word_end_unique(s: Seq<char>, n: int)
    requires
        is_word_end(s, n),
    ensures
        n == count_word(s),
{
    lemma_count_word(s);
    let m = count_word(s) as int;
    if n < m {
        assert(is_whitespace(s[n]));
    } else if m < n {
        assert(is_whitespace(s[m]));
    }
}

/// The whitespace-separated words of `s`: the maximal runs of
/// non-whitespace characters, in order.
pub open spec fn spec_words(s: Seq<char>) -> Seq<Seq<char>>
    decreases s.len(),
{
    if s.len() == 0 {
        seq![]
    } else if is_whitespace(s[0]) {
        spec_words(s.drop_first())
    } else {
        let n = count_word(s);
        proof {
            lemma_count_word(s);
        }
        seq![s.take(n as int)] + spec_words(s.skip(n as int))
    }
}

/// Finds the next word of `s` at or after `from`: `None` when only
/// whitespace is left, else the bounds of that word.
pub fn next_word(s: &str, from: usize) -> (r: Option<(usize, usize)>)
    requires
        from <= s@.len(),
    ensures
        r is None ==> spec_words(s@.skip(from as int)).len() == 0,
        r matches Some((a, b)) ==> {
            &&& from <= a < b <= s@.len()
            &&& spec_words(s@.skip(from as int)) == seq![s@.subrange(a as int, b as int)]
                + spec_words(s@.skip(b as int))
        },
{
    let len = s.unicode_len();
    let mut a = from;
    while a < len && is_whitespace_char(s.get_char(a))
        invariant
            from <= a <= len,
            len == s@.len(),
            spec_words(s@.skip(a as int)) == spec_words(s@.skip(from as int)),
        decreases len - a,
    {
        proof {
            assert(s@.skip(a as int).drop_first() =~= s@.skip(a + 1));
        }
        a = a + 1;
    }
    if a == len {
        proof {
            assert(s@.skip(a as int) =~= Seq::<char>::empty());
        }
        return None;
    }
    let mut b = a + 1;
    while b < len && !is_whitespace_char(s.get_char(b))
        invariant
            a < b <= len,
            len == s@.len(),
            forall|j: int| a <= j < b ==> !is_whitespace(s@[j]),
        decreases len - b,
    {
        b = b + 1;
    }
    proof {
        let t = s@.skip(a as int);
        assert(is_word_end(t, b - a)) by {
            assert forall|j: int| 0 <= j < b - a implies !is_whitespace(t[j]) by {
                assert(t[j] == s@[a + j]);
            }
            if b < len {
                assert(t[b - a] == s@[b as int]);
            }
        }
        lemma_word_end_unique(t, b - a);
        assert(t.take(b - a) =~= s@.subrange(a as int, b as int));
        assert(t.skip(b - a) =~= s@.skip(b as int));
    }
    Some((a, b))
}


/// Tests whether two texts are equal.
pub fn str_equal(a: &str, b: &str) -> (r: bool)
    ensures
        r == (a@ == b@),
{
    let n = a.unicode_len();
    if n != b.unicode_len() {
        return false;
    }
    let mut i: usize = 0;
    while i < n
        invariant
            i <= n,
            n == a@.len(),
            n == b@.len(),
            forall|j: int| 0 <= j < i ==> a@[j] == b@[j],
        decreases n - i,
    {
        if a.get_char(i) != b.get_char(i) {
            return false;
        }
        i = i + 1;
    }
    proof {
        assert(a@ =~= b@);
    }
    true
}

/// Tests whether `prefix` begins `s`.
pub fn starts_with(s: &str, prefix: &str) -> (r: bool)
    ensures
        r == prefix@.is_prefix_of(s@),
{
    let n = prefix.unicode_len();
    if n > s.unicode_len() {
        return false;
    }
    let mut i: usize = 0;
    while i < n
        invariant
            i <= n,
            n == prefix@.len(),
            n <= s@.len(),
            forall|j: int| 0 <= j < i ==> prefix@[j] == s@[j],
        decreases n - i,
    {
        if prefix.get_char(i) != s.get_char(i) {
            return false;
        }
        i = i + 1;
    }
    true
}

} // verus!
