//! Character-level text handling: Unicode white space, trimming, splitting
//! into fields and lines, substring search and joining.

use vstd::prelude::*;

verus! {

/// The characters that carry the Unicode `White_Space` property, which is
/// what `char::is_whitespace` tests.
pub open spec fn white_space(c: char) -> bool {
    ||| ('\u{9}' <= c && c <= '\u{d}')
    ||| c == ' '
    ||| c == '\u{85}'
    ||| c == '\u{a0}'
    ||| c == '\u{1680}'
    ||| ('\u{2000}' <= c && c <= '\u{200a}')
    ||| c == '\u{2028}'
    ||| c == '\u{2029}'
    ||| c == '\u{202f}'
    ||| c == '\u{205f}'
    ||| c == '\u{3000}'
}

/// Tests a character for the Unicode `White_Space` property.
pub fn is_white_space(c: char) -> (res: bool)
    ensures
        res == white_space(c),
{
    ('\u{9}' <= c && c <= '\u{d}') || c == ' ' || c == '\u{85}' || c == '\u{a0}' || c
        == '\u{1680}' || ('\u{2000}' <= c && c <= '\u{200a}') || c == '\u{2028}' || c
        == '\u{2029}' || c == '\u{202f}' || c == '\u{205f}' || c == '\u{3000}'
}


/// `String::push`: appends one character at the end of the string.
#[verifier::external_body]
pub(crate) fn push_char(s: &mut String, c: char)
    ensures
        final(s)@ == old(s)@.push(c),
{
    s.push(c);
}

/// The characters of a string slice, in order.
pub fn chars_of(s: &str) -> (res: Vec<char>)
    ensures
        res@ == s@,
{
    broadcast use vstd::string::group_string_axioms;
    let mut res: Vec<char> = Vec::new();
    for c in it: s.chars()
        invariant
            it.seq() == s@,
            res@ == it.seq().take(it.index() as int),
    {
        res.push(c);
    }
    res
}

/// The string made of the characters `chars[from..to]`.
pub fn string_of(chars: &Vec<char>, from: usize, to: usize) -> (res: String)
    requires
        from <= to <= chars@.len(),
    ensures
        res@ == chars@.subrange(from as int, to as int),
{
    let mut res = String::new();
    let mut i = from;
    while i < to
        invariant
            from <= i <= to <= chars@.len(),
            res@ == chars@.subrange(from as int, i as int),
        decreases to - i,
    {
        push_char(&mut res, chars[i]);
        assert(chars@.subrange(from as int, i + 1) == chars@.subrange(from as int, i as int).push(chars@[i as int]));
        i += 1;
    }
    res
}


/// `s` without its leading white space.
pub open spec fn trim_start(s: Seq<char>) -> Seq<char>
    decreases s.len(),
{
    if s.len() > 0 && white_space(s[0]) {
        trim_start(s.drop_first())
    } else {
        s
    }
}

/// `s` without its trailing white space.
pub open spec fn trim_end(s: Seq<char>) -> Seq<char>
    decreases s.len(),
{
    if s.len() > 0 && white_space(s.last()) {
        trim_end(s.drop_last())
    } else {
        s
    }
}

/// `s` without leading and trailing white space (what `str::trim` gives).
pub open spec fn trim(s: Seq<char>) -> Seq<char> {
    trim_end(trim_start(s))
}

/// Removes leading and trailing white space.
pub fn trimmed(s: &str) -> (res: String)
    ensures
        res@ == trim(s@),
{
    let chars = chars_of(s);
    let n = chars.len();
    let mut a: usize = 0;
    assert(s@.skip(0) == s@);
    while a < n && is_white_space(chars[a])
        invariant
            a <= n == chars@.len(),
            chars@ == s@,
            trim_start(s@) == trim_start(s@.skip(a as int)),
        decreases n - a,
    {
        assert(s@.skip(a as int).drop_first() == s@.skip(a + 1));
        a += 1;
    }
    assert(trim_start(s@) == s@.subrange(a as int, n as int)) by {
        assert(s@.skip(a as int) == s@.subrange(a as int, n as int));
    }
    let mut b: usize = n;
    while b > a && is_white_space(chars[b - 1])
        invariant
            a <= b <= n == chars@.len(),
            chars@ == s@,
            trim(s@) == trim_end(s@.subrange(a as int, b as int)),
        decreases b - a,
    {
        assert(s@.subrange(a as int, b as int).drop_last() == s@.subrange(a as int, b - 1));
        b -= 1;
    }
    string_of(&chars, a, b)
}

/// The white-space separated fields of `s`, in order (what
/// `str::split_whitespace` yields), stated from the last character back.
pub open spec fn fields(s: Seq<char>) -> Seq<Seq<char>>
    decreases s.len(),
{
    if s.len() == 0 {
        seq![]
    } else {
        let p = s.drop_last();
        let c = s.last();
        let f = fields(p);
        if white_space(c) {
            f
        } else if p.len() == 0 || white_space(p.last()) {
            f.push(seq![c])
        } else {
            f.update(f.len() - 1, f.last().push(c))
        }
    }
}

/// A text whose last character is not white space has at least one field,
/// and its last field ends with that character.
pub proof fn lemma_fields_nonempty(s: Seq<char>)
    requires
        s.len() > 0,
        !white_space(s.last()),
    ensures
        fields(s).len() > 0,
        fields(s).last().len() > 0,
        fields(s).last().last() == s.last(),
    decreases s.len(),
{
    let p = s.drop_last();
    if p.len() > 0 && !white_space(p.last()) {
        lemma_fields_nonempty(p);
    }
}

/// Every field is non-empty and free of white space.
pub proof fn lemma_fields_words(s: Seq<char>)
    ensures
        forall|i: int|
            0 <= i < fields(s).len() ==> (#[trigger] fields(s)[i]).len() > 0 && forall|j: int|
                0 <= j < fields(s)[i].len() ==> !white_space(fields(s)[i][j]),
    decreases s.len(),
{
    if s.len() > 0 {
        let p = s.drop_last();
        lemma_fields_words(p);
        let f = fields(p);
        let c = s.last();
        if !white_space(c) && !(p.len() == 0 || white_space(p.last())) {
            lemma_fields_nonempty(p);
            assert forall|i: int| 0 <= i < fields(s).len() implies (#[trigger] fields(s)[i]).len()
                > 0 && forall|j: int|
                0 <= j < fields(s)[i].len() ==> !white_space(fields(s)[i][j]) by {
                if i == f.len() - 1 {
                    assert(fields(s)[i] == f.last().push(c));
                    assert forall|j: int| 0 <= j < fields(s)[i].len() implies !white_space(
                        fields(s)[i][j],
                    ) by {
                        if j < f.last().len() {
                            assert(f[i][j] == fields(s)[i][j]);
                        }
                    }
                }
            }
        }
    }
}

/// Splitting a text that ends in white space (or is empty) and another
/// text after it gives the fields of each, one after the other.
pub proof fn lemma_fields_concat(s: Seq<char>, t: Seq<char>)
    requires
        s.len() == 0 || white_space(s.last()),
    ensures
        fields(s + t) == fields(s) + fields(t),
    decreases t.len(),
{
    if t.len() == 0 {
        assert(s + t == s);
        assert(fields(s) + fields(t) == fields(s));
    } else {
        let t1 = t.drop_last();
        let c = t.last();
        lemma_fields_concat(s, t1);
        assert((s + t).drop_last() == s + t1);
        assert((s + t).last() == c);
        if white_space(c) {
        } else if t1.len() == 0 {
            assert(s + t1 == s);
            assert(fields(t1) == Seq::<Seq<char>>::empty());
            assert(fields(s + t) == fields(s).push(seq![c]));
            assert(fields(t) == seq![seq![c]]);
            assert(fields(s).push(seq![c]) == fields(s) + seq![seq![c]]);
        } else {
            assert((s + t1).last() == t1.last());
            if white_space(t1.last()) {
                assert(fields(s + t) == (fields(s) + fields(t1)).push(seq![c]));
                assert(fields(t) == fields(t1).push(seq![c]));
                assert((fields(s) + fields(t1)).push(seq![c]) == fields(s) + fields(t1).push(seq![c]));
            } else {
                lemma_fields_nonempty(t1);
                let f = fields(s) + fields(t1);
                let g = fields(t1);
                assert(f.last() == g.last());
                assert(fields(s + t) == f.update(f.len() - 1, f.last().push(c)));
                assert(fields(t) == g.update(g.len() - 1, g.last().push(c)));
                assert(f.update(f.len() - 1, f.last().push(c)) == fields(s) + g.update(
                    g.len() - 1,
                    g.last().push(c),
                ));
            }
        }
    }
}

/// A non-empty text without white space is one field.
pub open spec fn is_word(w: Seq<char>) -> bool {
    w.len() > 0 && forall|i: int| 0 <= i < w.len() ==> !white_space(#[trigger] w[i])
}

/// A word splits into itself alone.
pub proof fn lemma_fields_word(w: Seq<char>)
    requires
        is_word(w),
    ensures
        fields(w) == seq![w],
    decreases w.len(),
{
    let p = w.drop_last();
    assert(!white_space(w[w.len() - 1]));
    if p.len() == 0 {
        assert(fields(p) == Seq::<Seq<char>>::empty());
        assert(w == seq![w.last()]);
    } else {
        assert(is_word(p)) by {
            assert forall|i: int| 0 <= i < p.len() implies !white_space(#[trigger] p[i]) by {
                assert(p[i] == w[i]);
            }
        }
        lemma_fields_word(p);
        assert(!white_space(p.last())) by {
            assert(p.last() == w[p.len() - 1]);
        }
        assert(p.push(w.last()) == w);
    }
}

/// The texts of `words` with a tab between each two.
pub open spec fn tab_join(words: Seq<Seq<char>>) -> Seq<char>
    decreases words.len(),
{
    if words.len() == 0 {
        seq![]
    } else if words.len() == 1 {
        words[0]
    } else {
        tab_join(words.drop_last()) + seq!['\t'] + words.last()
    }
}

/// Words joined by tabs split back into the same words.
pub proof fn lemma_fields_tab_join(words: Seq<Seq<char>>)
    requires
        forall|i: int| 0 <= i < words.len() ==> is_word(#[trigger] words[i]),
    ensures
        fields(tab_join(words)) == words,
    decreases words.len(),
{
    if words.len() == 0 {
    } else if words.len() == 1 {
        lemma_fields_word(words[0]);
        assert(words == seq![words[0]]);
    } else {
        let d = words.drop_last();
        assert forall|i: int| 0 <= i < d.len() implies is_word(#[trigger] d[i]) by {
            assert(d[i] == words[i]);
        }
        lemma_fields_tab_join(d);
        let s = tab_join(d) + seq!['\t'];
        assert(s.drop_last() == tab_join(d));
        assert(fields(s) == fields(tab_join(d)));
        assert(is_word(words[words.len() - 1]));
        lemma_fields_word(words.last());
        lemma_fields_concat(s, words.last());
        assert(d + seq![words.last()] == words);
    }
}

/// Splits a string at runs of white space, dropping empty fields.
pub fn split_fields(s: &str) -> (res: Vec<String>)
    ensures
        res@.map_values(|f: String| f@) == fields(s@),
{
    let chars = chars_of(s);
    let n = chars.len();
    let mut res: Vec<String> = Vec::new();
    let mut start: usize = 0;
    let mut in_field = false;
    let mut i: usize = 0;
    while i < n
        invariant
            i <= n == chars@.len(),
            chars@ == s@,
            start <= i,
            in_field ==> start < i && forall|k: int| start <= k < i ==> !white_space(chars@[k]),
            in_field ==> start == 0 || white_space(chars@[start - 1]),
            in_field ==> fields(s@.take(i as int)) == res@.map_values(|f: String| f@).push(
                s@.subrange(start as int, i as int),
            ),
            !in_field ==> fields(s@.take(i as int)) == res@.map_values(|f: String| f@),
            !in_field ==> i == 0 || white_space(chars@[i - 1]),
        decreases n - i,
    {
        let c = chars[i];
        let ghost t = s@.take(i + 1);
        assert(t.drop_last() == s@.take(i as int));
        assert(t.last() == c);
        if is_white_space(c) {
            if in_field {
                let w = string_of(&chars, start, i);
                res.push(w);
                assert(res@.map_values(|f: String| f@) == res@.drop_last().map_values(|f: String| f@).push(w@));
                in_field = false;
            }
        } else {
            if !in_field {
                start = i;
                in_field = true;
                assert(s@.subrange(start as int, i + 1) == seq![c]);
            } else {
                assert(s@.subrange(start as int, i + 1) == s@.subrange(start as int, i as int).push(c));
            }
        }
        i += 1;
    }
    assert(s@.take(n as int) == s@);
    if in_field {
        let w = string_of(&chars, start, n);
        res.push(w);
        assert(res@.map_values(|f: String| f@) == res@.drop_last().map_values(|f: String| f@).push(w@));
    }
    res
}



/// The pieces of `s` between newline characters (what `str::split('\n')`
/// yields): one more piece than there are newlines, empty pieces kept.
pub open spec fn lines(s: Seq<char>) -> Seq<Seq<char>>
    decreases s.len(),
{
    if s.len() == 0 {
        seq![seq![]]
    } else {
        let r = lines(s.drop_last());
        if s.last() == '\n' {
            r.push(seq![])
        } else {
            r.update(r.len() - 1, r.last().push(s.last()))
        }
    }
}

/// There is always at least one piece.
pub proof fn lemma_lines_nonempty(s: Seq<char>)
    ensures
        lines(s).len() > 0,
    decreases s.len(),
{
    if s.len() > 0 {
        lemma_lines_nonempty(s.drop_last());
    }
}

/// Appending a text without a newline extends the last piece.
pub proof fn lemma_lines_append(s: Seq<char>, t: Seq<char>)
    requires
        !t.contains('\n'),
    ensures
        lines(s).len() > 0,
        lines(s + t) == lines(s).update(lines(s).len() - 1, lines(s).last() + t),
    decreases t.len(),
{
    lemma_lines_nonempty(s);
    if t.len() == 0 {
        assert(s + t == s);
        assert(lines(s).last() + t == lines(s).last());
        assert(lines(s).update(lines(s).len() - 1, lines(s).last()) == lines(s));
    } else {
        let t1 = t.drop_last();
        assert(!t1.contains('\n')) by {
            if t1.contains('\n') {
                let i = choose|i: int| 0 <= i < t1.len() && t1[i] == '\n';
                assert(t[i] == '\n');
            }
        }
        lemma_lines_append(s, t1);
        assert((s + t).drop_last() == s + t1);
        assert((s + t).last() == t.last());
        assert(t.last() != '\n') by {
            assert(t[t.len() - 1] == t.last());
        }
        let r = lines(s);
        assert(r.last() + t1 + seq![t.last()] == r.last() + t);
        assert(lines(s + t) == r.update(r.len() - 1, r.last() + t1).update(
            r.len() - 1,
            (r.last() + t1).push(t.last()),
        ));
        assert((r.last() + t1).push(t.last()) == r.last() + t);
    }
}

/// Pieces without newlines, joined by newlines, split back into the same
/// pieces.
pub proof fn lemma_lines_join(list: Seq<Seq<char>>)
    requires
        list.len() > 0,
        forall|i: int| 0 <= i < list.len() ==> !(#[trigger] list[i]).contains('\n'),
    ensures
        lines(join_lines(list)) == list,
    decreases list.len(),
{
    if list.len() == 1 {
        lemma_lines_append(Seq::empty(), list[0]);
        assert(Seq::<char>::empty() + list[0] == list[0]);
        assert(lines(Seq::<char>::empty()) == seq![Seq::<char>::empty()]);
        assert(Seq::<char>::empty() + list[0] == list[0]);
        assert(list == seq![list[0]]);
    } else {
        let d = list.drop_last();
        assert forall|i: int| 0 <= i < d.len() implies !(#[trigger] d[i]).contains('\n') by {
            assert(d[i] == list[i]);
        }
        lemma_lines_join(d);
        let j = join_lines(d) + seq!['\n'];
        assert(j.drop_last() == join_lines(d));
        assert(lines(j) == d.push(Seq::<char>::empty()));
        assert(!list[list.len() - 1].contains('\n'));
        lemma_lines_append(j, list.last());
        assert(Seq::<char>::empty() + list.last() == list.last());
        assert(d.push(Seq::<char>::empty()).update(d.len() as int, list.last()) == list);
    }
}

/// A text that starts and ends with a character other than white space is
/// its own trim.
pub proof fn lemma_trim_unchanged(s: Seq<char>)
    requires
        s.len() > 0,
        !white_space(s[0]),
        !white_space(s.last()),
    ensures
        trim(s) == s,
{
}

/// Non-empty pieces joined by newlines start with the first piece's first
/// character and end with the last piece's last character.
pub proof fn lemma_join_lines_ends(list: Seq<Seq<char>>)
    requires
        list.len() > 0,
        forall|i: int| 0 <= i < list.len() ==> (#[trigger] list[i]).len() > 0,
    ensures
        join_lines(list).len() > 0,
        join_lines(list)[0] == list[0][0],
        join_lines(list).last() == list.last().last(),
    decreases list.len(),
{
    if list.len() > 1 {
        let d = list.drop_last();
        assert forall|i: int| 0 <= i < d.len() implies (#[trigger] d[i]).len() > 0 by {
            assert(d[i] == list[i]);
        }
        lemma_join_lines_ends(d);
        assert(d[0] == list[0]);
        assert(list[list.len() - 1].len() > 0);
    }
}

/// Words joined by tabs make a non-empty text without newlines that starts
/// and ends with a character other than white space.
pub proof fn lemma_tab_join_shape(words: Seq<Seq<char>>)
    requires
        words.len() > 0,
        forall|i: int| 0 <= i < words.len() ==> is_word(#[trigger] words[i]),
    ensures
        tab_join(words).len() > 0,
        !white_space(tab_join(words)[0]),
        !white_space(tab_join(words).last()),
        !tab_join(words).contains('\n'),
    decreases words.len(),
{
    assert(is_word(words[0]));
    assert(!white_space(words[0][0]));
    let w = words[words.len() - 1];
    assert(is_word(w));
    assert(!white_space(w[w.len() - 1]));
    if words.len() == 1 {
        assert(!words[0].contains('\n')) by {
            if words[0].contains('\n') {
                let i = choose|i: int| 0 <= i < words[0].len() && words[0][i] == '\n';
                assert(!white_space(words[0][i]));
            }
        }
    } else {
        let d = words.drop_last();
        assert forall|i: int| 0 <= i < d.len() implies is_word(#[trigger] d[i]) by {
            assert(d[i] == words[i]);
        }
        lemma_tab_join_shape(d);
        let t = tab_join(words);
        let a = tab_join(d);
        assert(t == a + seq!['\t'] + w);
        assert(d[0] == words[0]);
        assert(t[0] == a[0]);
        assert(t.last() == w.last());
        assert(!t.contains('\n')) by {
            if t.contains('\n') {
                let i = choose|i: int| 0 <= i < t.len() && t[i] == '\n';
                if i < a.len() {
                    assert(t[i] == a[i]);
                } else if i > a.len() {
                    assert(t[i] == w[i - a.len() - 1]);
                    assert(!white_space(w[i - a.len() - 1]));
                }
            }
        }
    }
}

/// Splits a string at each newline character.
pub fn split_lines(s: &str) -> (res: Vec<String>)
    ensures
        res@.map_values(|l: String| l@) == lines(s@),
{
    let chars = chars_of(s);
    let n = chars.len();
    let mut res: Vec<String> = Vec::new();
    let mut start: usize = 0;
    let mut i: usize = 0;
    assert(s@.take(0) == Seq::<char>::empty());
    assert(s@.subrange(0, 0) == Seq::<char>::empty());
    while i < n
        invariant
            start <= i <= n == chars@.len(),
            chars@ == s@,
            lines(s@.take(i as int)) == res@.map_values(|l: String| l@).push(
                s@.subrange(start as int, i as int),
            ),
        decreases n - i,
    {
        let c = chars[i];
        let ghost t = s@.take(i + 1);
        assert(t.drop_last() == s@.take(i as int));
        assert(t.last() == c);
        if c == '\n' {
            let l = string_of(&chars, start, i);
            res.push(l);
            assert(res@.map_values(|l: String| l@) == res@.drop_last().map_values(|l: String| l@).push(l@));
            start = i + 1;
            assert(s@.subrange(start as int, i + 1) == Seq::<char>::empty());
        } else {
            assert(s@.subrange(start as int, i + 1) == s@.subrange(start as int, i as int).push(c));
        }
        i += 1;
    }
    assert(s@.take(n as int) == s@);
    let l = string_of(&chars, start, n);
    res.push(l);
    assert(res@.map_values(|l: String| l@) == res@.drop_last().map_values(|l: String| l@).push(l@));
    res
}

/// `needle` occurs in `hay` starting at position `i`.
pub open spec fn occurs_at(hay: Seq<char>, needle: Seq<char>, i: int) -> bool {
    0 <= i && i + needle.len() <= hay.len() && hay.subrange(i, i + needle.len()) == needle
}

/// `needle` occurs somewhere in `hay` (what `str::contains` tests for a
/// string pattern); the empty string occurs in every string.
pub open spec fn has_substring(hay: Seq<char>, needle: Seq<char>) -> bool {
    exists|i: int| occurs_at(hay, needle, i)
}

/// Tests whether `needle` occurs in `hay`.
pub fn contains(hay: &str, needle: &str) -> (res: bool)
    ensures
        res == has_substring(hay@, needle@),
{
    let h = chars_of(hay);
    let nd = chars_of(needle);
    let hn = h.len();
    let nn = nd.len();
    if nn > hn {
        assert forall|i: int| !occurs_at(hay@, needle@, i) by {}
        return false;
    }
    let mut i: usize = 0;
    while i <= hn - nn
        invariant
            nn <= hn,
            i <= hn - nn + 1,
            h@ == hay@,
            nd@ == needle@,
            hn == h@.len(),
            nn == nd@.len(),
            forall|k: int| 0 <= k < i ==> !occurs_at(hay@, needle@, k),
        decreases hn - nn + 1 - i,
    {
        let mut j: usize = 0;
        while j < nn && h[i + j] == nd[j]
            invariant
                j <= nn,
                i + nn <= hn,
                h@ == hay@,
                nd@ == needle@,
                hn == h@.len(),
                nn == nd@.len(),
                forall|k: int| 0 <= k < j ==> h@[i + k] == nd@[k],
            decreases nn - j,
        {
            j += 1;
        }
        if j == nn {
            assert(hay@.subrange(i as int, i + nn) == needle@);
            assert(occurs_at(hay@, needle@, i as int));
            return true;
        }
        assert(hay@.subrange(i as int, i + nn)[j as int] != needle@[j as int]);
        i += 1;
    }
    assert forall|k: int| !occurs_at(hay@, needle@, k) by {
        if 0 <= k && k + nn <= hn {
            assert(k < i);
        }
    }
    false
}

/// The pieces of `list` joined with a newline between each two (what
/// `[String]::join("\n")` gives).
pub open spec fn join_lines(list: Seq<Seq<char>>) -> Seq<char>
    decreases list.len(),
{
    if list.len() == 0 {
        seq![]
    } else if list.len() == 1 {
        list[0]
    } else {
        join_lines(list.drop_last()) + seq!['\n'] + list.last()
    }
}

/// Joins strings with a newline between each two.
pub fn join_with_newlines(parts: &Vec<String>) -> (res: String)
    ensures
        res@ == join_lines(parts@.map_values(|p: String| p@)),
{
    let ghost views = parts@.map_values(|p: String| p@);
    let mut res = String::new();
    let mut i: usize = 0;
    while i < parts.len()
        invariant
            i <= parts@.len(),
            views == parts@.map_values(|p: String| p@),
            res@ == join_lines(views.take(i as int)),
        decreases parts@.len() - i,
    {
        assert(views.take(i + 1).drop_last() == views.take(i as int));
        if i > 0 {
            push_char(&mut res, '\n');
        }
        res.append(parts[i].as_str());
        assert(views.take(i + 1).last() == parts@[i as int]@);
        if i == 0 {
            assert(res@ == views.take(1)[0]);
        }
        i += 1;
    }
    assert(views.take(parts@.len() as int) == views);
    res
}


/// What `str::to_lowercase` gives for a text: each character replaced by
/// its lowercase mapping in the Unicode tables.
pub uninterp spec fn lowercase_of(s: Seq<char>) -> Seq<char>;

/// `str::to_lowercase`. The contract claims that the result is
/// [`lowercase_of`] of the argument (the same text gives the same result),
/// and that the empty text lowercases to the empty text: the result is made
/// of the lowercase mappings of the argument's characters, and there are
/// none.
#[verifier::external_body]
pub(crate) fn to_lowercase(s: &str) -> (res: String)
    ensures
        res@ == lowercase_of(s@),
        s@.len() == 0 ==> res@.len() == 0,
{
    s.to_lowercase()
}

} // verus!
