//! Character classes and conversions between strings and character vectors.

use vstd::prelude::*;
use vstd::std_specs::iter::IteratorSpec;

verus! {

/// Whether `c` is whitespace in Unicode's terms, as `char::is_whitespace`
/// reports it.
pub uninterp spec fn char_is_whitespace(c: char) -> bool;

/// Whether `c` is alphabetic or numeric in Unicode's terms, as
/// `char::is_alphanumeric` reports it.
pub uninterp spec fn char_is_alphanumeric(c: char) -> bool;

/// Whether `c` is upper case in Unicode's terms, as `char::is_uppercase`
/// reports it.
pub uninterp spec fn char_is_uppercase(c: char) -> bool;

/// `char::is_whitespace` depends on its argument alone; its answer is
/// named, not spelled out.
pub assume_specification[ char::is_whitespace ](c: char) -> (b: bool)
    ensures
        b == char_is_whitespace(c),
;

/// `char::is_alphanumeric` depends on its argument alone; its answer is
/// named, not spelled out.
pub assume_specification[ char::is_alphanumeric ](c: char) -> (b: bool)
    ensures
        b == char_is_alphanumeric(c),
;

/// `char::is_uppercase` depends on its argument alone; its answer is
/// named, not spelled out.
pub assume_specification[ char::is_uppercase ](c: char) -> (b: bool)
    ensures
        b == char_is_uppercase(c),
;

/// `String::push` appends the given character to the end of the string.
pub assume_specification[ std::string::String::push ](s: &mut std::string::String, ch: char)
    ensures
        final(s)@ == old(s)@.push(ch),
;

/// The characters of `s`, in order.
pub fn chars_of(s: &str) -> (v: Vec<char>)
    ensures
        v@ == s@,
{
    broadcast use vstd::string::axiom_spec_iter, vstd::string::next_postcondition;

    let mut it = s.chars();
    let mut v: Vec<char> = Vec::new();
    loop
        invariant
            v@ + it.remaining() == s@,
            it.decrease() is Some,
        ensures
            v@ == s@,
        decreases it.decrease()->0,
    {
        let ghost before = it.remaining();
        match it.next() {
            Option::Some(c) => {
                v.push(c);
                assert(v@ + it.remaining() =~= v@.drop_last() + before);
            },
            Option::None => {
                assert(v@ =~= s@);
                break ;
            },
        }
    }
    v
}

/// The characters `v[from..to]` as a string.
pub fn string_of(v: &Vec<char>, from: usize, to: usize) -> (s: String)
    requires
        from <= to <= v.len(),
    ensures
        s@ == v@.subrange(from as int, to as int),
{
    let mut s = String::new();
    let mut i: usize = from;
    while i < to
        invariant
            from <= i <= to <= v.len(),
            s@ == v@.subrange(from as int, i as int),
        decreases to - i,
    {
        s.push(v[i]);
        i += 1;
        assert(s@ =~= v@.subrange(from as int, i as int));
    }
    s
}

/// Whether two character vectors hold the same characters.
pub fn chars_eq(a: &Vec<char>, b: &Vec<char>) -> (res: bool)
    ensures
        res == (a@ == b@),
{
    if a.len() != b.len() {
        return false;
    }
    let mut i: usize = 0;
    while i < a.len()
        invariant
            a.len() == b.len(),
            i <= a.len(),
            a@.subrange(0, i as int) == b@.subrange(0, i as int),
        decreases a.len() - i,
    {
        if a[i] != b[i] {
            return false;
        }
        i += 1;
        assert(a@.subrange(0, i as int) =~= a@.subrange(0, i - 1).push(a@[i - 1]));
        assert(b@.subrange(0, i as int) =~= b@.subrange(0, i - 1).push(b@[i - 1]));
    }
    assert(a@ =~= a@.subrange(0, a.len() as int));
    assert(b@ =~= b@.subrange(0, b.len() as int));
    true
}

/// Whether two strings hold the same characters.
pub fn str_eq(a: &str, b: &str) -> (res: bool)
    ensures
        res == (a@ == b@),
{
    let x = chars_of(a);
    let y = chars_of(b);
    chars_eq(&x, &y)
}

/// `s` without the whitespace at its start.
pub open spec fn trim_start(s: Seq<char>) -> Seq<char>
    decreases s.len(),
{
    if s.len() > 0 && char_is_whitespace(s[0]) {
        trim_start(s.drop_first())
    } else {
        s
    }
}

/// `s` without the whitespace at its end.
pub open spec fn trim_end(s: Seq<char>) -> Seq<char>
    decreases s.len(),
{
    if s.len() > 0 && char_is_whitespace(s.last()) {
        trim_end(s.drop_last())
    } else {
        s
    }
}

/// `s` without the whitespace at its start and at its end.
pub open spec fn trim(s: Seq<char>) -> Seq<char> {
    trim_end(trim_start(s))
}

/// The lines of `s`: the pieces between its line feeds. There is always at
/// least one, and a line feed at the end is followed by an empty line.
pub open spec fn lines(s: Seq<char>) -> Seq<Seq<char>>
    decreases s.len(),
{
    if s.len() == 0 {
        seq![Seq::empty()]
    } else {
        let before = lines(s.drop_last());
        if s.last() == '\n' {
            before.push(Seq::empty())
        } else {
            before.drop_last().push(before.last().push(s.last()))
        }
    }
}

/// The words of `s` that are complete, and the word that is being read at
/// its end (empty after whitespace).
pub open spec fn words_scan(s: Seq<char>) -> (Seq<Seq<char>>, Seq<char>)
    decreases s.len(),
{
    if s.len() == 0 {
        (Seq::empty(), Seq::empty())
    } else {
        let (done, current) = words_scan(s.drop_last());
        if char_is_whitespace(s.last()) {
            if current.len() > 0 {
                (done.push(current), Seq::empty())
            } else {
                (done, current)
            }
        } else {
            (done, current.push(s.last()))
        }
    }
}

/// The words of `s`: its maximal runs of characters that are no whitespace.
pub open spec fn words(s: Seq<char>) -> Seq<Seq<char>> {
    let (done, current) = words_scan(s);
    if current.len() > 0 {
        done.push(current)
    } else {
        done
    }
}

/// `s` with every occurrence of `c` left out.
pub open spec fn without_char(s: Seq<char>, c: char) -> Seq<char>
    decreases s.len(),
{
    if s.len() == 0 {
        Seq::empty()
    } else if s.last() == c {
        without_char(s.drop_last(), c)
    } else {
        without_char(s.drop_last(), c).push(s.last())
    }
}

/// How often `c` occurs in `s`.
pub open spec fn count_char(s: Seq<char>, c: char) -> nat
    decreases s.len(),
{
    if s.len() == 0 {
        0
    } else if s.last() == c {
        count_char(s.drop_last(), c) + 1
    } else {
        count_char(s.drop_last(), c)
    }
}

/// Whether `s` starts with `prefix`.
pub open spec fn starts_with(s: Seq<char>, prefix: Seq<char>) -> bool {
    prefix.len() <= s.len() && s.subrange(0, prefix.len() as int) == prefix
}

/// The views of the strings of `v`.
pub open spec fn views(v: Seq<String>) -> Seq<Seq<char>> {
    Seq::new(v.len(), |i: int| v[i]@)
}

/// The views of the character vectors of `v`.
pub open spec fn vec_views(v: Seq<Vec<char>>) -> Seq<Seq<char>> {
    Seq::new(v.len(), |i: int| v[i]@)
}

/// `s` with every occurrence of `word` left out, found from left to right.
pub open spec fn without_word(s: Seq<char>, word: Seq<char>) -> Seq<char>
    decreases s.len(),
{
    if word.len() == 0 || s.len() < word.len() {
        s
    } else if s.subrange(0, word.len() as int) == word {
        without_word(s.skip(word.len() as int), word)
    } else {
        seq![s[0]] + without_word(s.skip(1), word)
    }
}

/// The characters of `v` without the whitespace at both ends.
pub fn trimmed(v: &Vec<char>) -> (res: Vec<char>)
    ensures
        res@ == trim(v@),
{
    let n = v.len();
    let mut a: usize = 0;
    assert(v@ =~= v@.subrange(0, n as int));
    while a < n && v[a].is_whitespace()
        invariant
            a <= n == v.len(),
            trim_start(v@) == trim_start(v@.subrange(a as int, n as int)),
        decreases n - a,
    {
        assert(v@.subrange(a as int, n as int).drop_first() =~= v@.subrange(a + 1, n as int));
        a += 1;
    }
    let mut b: usize = n;
    while b > a && v[b - 1].is_whitespace()
        invariant
            a <= b <= n == v.len(),
            trim_end(v@.subrange(a as int, n as int)) == trim_end(
                v@.subrange(a as int, b as int),
            ),
        decreases b,
    {
        assert(v@.subrange(a as int, b as int).drop_last() =~= v@.subrange(a as int, b - 1));
        b -= 1;
    }
    let mut res: Vec<char> = Vec::new();
    let mut i: usize = a;
    while i < b
        invariant
            a <= i <= b <= v.len(),
            res@ == v@.subrange(a as int, i as int),
        decreases b - i,
    {
        res.push(v[i]);
        i += 1;
        assert(res@ =~= v@.subrange(a as int, i as int));
    }
    res
}

/// The lines of `v`.
pub fn split_lines(v: &Vec<char>) -> (res: Vec<Vec<char>>)
    ensures
        res@.len() == lines(v@).len(),
        forall|i: int| 0 <= i < res@.len() ==> (#[trigger] res@[i])@ == lines(v@)[i],
{
    let mut done: Vec<Vec<char>> = Vec::new();
    let mut current: Vec<char> = Vec::new();
    let mut i: usize = 0;
    assert(v@.subrange(0, 0) =~= Seq::<char>::empty());
    while i < v.len()
        invariant
            i <= v.len(),
            lines(v@.subrange(0, i as int)).len() == done@.len() + 1,
            lines(v@.subrange(0, i as int)).last() == current@,
            forall|k: int|
                0 <= k < done@.len() ==> (#[trigger] done@[k])@ == lines(
                    v@.subrange(0, i as int),
                )[k],
        decreases v.len() - i,
    {
        let c = v[i];
        assert(v@.subrange(0, i + 1).drop_last() =~= v@.subrange(0, i as int));
        if c == '\n' {
            done.push(current);
            current = Vec::new();
        } else {
            current.push(c);
        }
        i += 1;
    }
    assert(v@ =~= v@.subrange(0, v.len() as int));
    done.push(current);
    done
}

/// The words of `v`.
pub fn split_words(v: &Vec<char>) -> (res: Vec<Vec<char>>)
    ensures
        res@.len() == words(v@).len(),
        forall|i: int| 0 <= i < res@.len() ==> (#[trigger] res@[i])@ == words(v@)[i],
{
    let mut done: Vec<Vec<char>> = Vec::new();
    let mut current: Vec<char> = Vec::new();
    let mut i: usize = 0;
    assert(v@.subrange(0, 0) =~= Seq::<char>::empty());
    while i < v.len()
        invariant
            i <= v.len(),
            words_scan(v@.subrange(0, i as int)).0.len() == done@.len(),
            words_scan(v@.subrange(0, i as int)).1 == current@,
            forall|k: int|
                0 <= k < done@.len() ==> (#[trigger] done@[k])@ == words_scan(
                    v@.subrange(0, i as int),
                ).0[k],
        decreases v.len() - i,
    {
        let c = v[i];
        assert(v@.subrange(0, i + 1).drop_last() =~= v@.subrange(0, i as int));
        if c.is_whitespace() {
            if current.len() > 0 {
                done.push(current);
                current = Vec::new();
            }
        } else {
            current.push(c);
        }
        i += 1;
    }
    assert(v@ =~= v@.subrange(0, v.len() as int));
    if current.len() > 0 {
        done.push(current);
    }
    done
}

/// The characters of `v` other than `c`.
pub fn remove_char(v: &Vec<char>, c: char) -> (res: Vec<char>)
    ensures
        res@ == without_char(v@, c),
{
    let mut res: Vec<char> = Vec::new();
    let mut i: usize = 0;
    assert(v@.subrange(0, 0) =~= Seq::<char>::empty());
    while i < v.len()
        invariant
            i <= v.len(),
            res@ == without_char(v@.subrange(0, i as int), c),
        decreases v.len() - i,
    {
        assert(v@.subrange(0, i + 1).drop_last() =~= v@.subrange(0, i as int));
        if v[i] != c {
            res.push(v[i]);
        }
        i += 1;
    }
    assert(v@ =~= v@.subrange(0, v.len() as int));
    res
}

/// How often `c` occurs in `v`.
pub fn count_of(v: &Vec<char>, c: char) -> (res: usize)
    ensures
        res == count_char(v@, c),
{
    let mut res: usize = 0;
    let mut i: usize = 0;
    assert(v@.subrange(0, 0) =~= Seq::<char>::empty());
    while i < v.len()
        invariant
            i <= v.len(),
            res <= i,
            res == count_char(v@.subrange(0, i as int), c),
        decreases v.len() - i,
    {
        assert(v@.subrange(0, i + 1).drop_last() =~= v@.subrange(0, i as int));
        if v[i] == c {
            res += 1;
        }
        i += 1;
    }
    assert(v@ =~= v@.subrange(0, v.len() as int));
    res
}

/// Whether `v` starts with the characters of `prefix`.
pub fn has_prefix(v: &Vec<char>, prefix: &str) -> (res: bool)
    ensures
        res == starts_with(v@, prefix@),
{
    let p = chars_of(prefix);
    if p.len() > v.len() {
        return false;
    }
    let mut i: usize = 0;
    while i < p.len()
        invariant
            i <= p.len() <= v.len(),
            p@ == prefix@,
            v@.subrange(0, i as int) == p@.subrange(0, i as int),
        decreases p.len() - i,
    {
        if v[i] != p[i] {
            assert(v@.subrange(0, p.len() as int)[i as int] != p@[i as int]);
            return false;
        }
        i += 1;
        assert(v@.subrange(0, i as int) =~= v@.subrange(0, i - 1).push(v@[i - 1]));
        assert(p@.subrange(0, i as int) =~= p@.subrange(0, i - 1).push(p@[i - 1]));
    }
    assert(p@ =~= p@.subrange(0, p.len() as int));
    true
}

/// Whether the characters of `word` stand in `v` from position `i` on.
fn matches_at(v: &Vec<char>, i: usize, word: &Vec<char>) -> (res: bool)
    requires
        i <= v.len(),
    ensures
        res == (word.len() <= v.len() - i && v@.skip(i as int).subrange(0, word.len() as int)
            == word@),
{
    if word.len() > v.len() - i {
        return false;
    }
    let ghost rest = v@.skip(i as int);
    let mut k: usize = 0;
    while k < word.len()
        invariant
            k <= word.len() <= v.len() - i,
            rest == v@.skip(i as int),
            rest.subrange(0, k as int) == word@.subrange(0, k as int),
        decreases word.len() - k,
    {
        if v[i + k] != word[k] {
            assert(rest.subrange(0, word.len() as int)[k as int] != word@[k as int]);
            return false;
        }
        k += 1;
        assert(rest.subrange(0, k as int) =~= rest.subrange(0, k - 1).push(rest[k - 1]));
        assert(word@.subrange(0, k as int) =~= word@.subrange(0, k - 1).push(word@[k - 1]));
    }
    assert(word@ =~= word@.subrange(0, word.len() as int));
    true
}

/// The characters of `v` with every occurrence of `word` left out.
pub fn remove_word(v: &Vec<char>, word: &str) -> (res: Vec<char>)
    ensures
        res@ == without_word(v@, word@),
{
    let w = chars_of(word);
    let mut res: Vec<char> = Vec::new();
    let mut i: usize = 0;
    assert(v@.skip(0) =~= v@);
    assert(res@ + without_word(v@, w@) =~= without_word(v@, w@));
    if w.len() == 0 {
        while i < v.len()
            invariant
                i <= v.len(),
                res@ == v@.subrange(0, i as int),
            decreases v.len() - i,
        {
            res.push(v[i]);
            i += 1;
            assert(res@ =~= v@.subrange(0, i as int));
        }
        assert(v@ =~= v@.subrange(0, v.len() as int));
        return res;
    }
    while i < v.len()
        invariant
            i <= v.len(),
            w@ == word@,
            w.len() > 0,
            res@ + without_word(v@.skip(i as int), w@) == without_word(v@, w@),
        decreases v.len() - i,
    {
        let ghost rest = v@.skip(i as int);
        let ghost so_far = res@;
        if matches_at(v, i, &w) {
            assert(rest.skip(w.len() as int) =~= v@.skip(i + w.len()));
            i += w.len();
        } else {
            res.push(v[i]);
            proof {
                assert(rest.skip(1) =~= v@.skip(i + 1));
                if rest.len() < w.len() {
                    lemma_short_stays(rest.skip(1), w@);
                    assert(seq![rest[0]] + rest.skip(1) =~= rest);
                }
                assert(res@ + without_word(v@.skip(i + 1), w@) =~= so_far + (seq![rest[0]]
                    + without_word(rest.skip(1), w@)));
            }
            i += 1;
        }
    }
    assert(v@.skip(i as int).len() == 0);
    assert(res@ + Seq::<char>::empty() =~= res@);
    res
}

/// Text that is shorter than a word holds no occurrence of it.
pub proof fn lemma_short_stays(s: Seq<char>, word: Seq<char>)
    requires
        s.len() < word.len(),
    ensures
        without_word(s, word) == s,
{
}

} // verus!
