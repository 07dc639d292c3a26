//! Character-level text operations used throughout the library.
//!
//! Texts are modelled by their `Seq<char>` views; every executable helper
//! here is tied to a spec function over those sequences.
use vstd::prelude::*;

verus! {

/// The characters that carry the Unicode `White_Space` property, which is
/// what `char::is_whitespace` (and hence `str::trim`) recognises.
pub open spec fn is_ws(c: char) -> bool {
    ||| c == ' '
    ||| ('\t' <= c && c <= '\r')
    ||| c == '\u{85}'
    ||| c == '\u{a0}'
    ||| c == '\u{1680}'
    ||| ('\u{2000}' <= c && c <= '\u{200a}')
    ||| c == '\u{2028}'
    ||| c == '\u{2029}'
    ||| c == '\u{202f}'
    ||| c == '\u{205f}'
    ||| c == '\u{3000}'
}

/// `s` with leading whitespace removed.
pub open spec fn trim_start_ws(s: Seq<char>) -> Seq<char>
    decreases s.len(),
{
    if s.len() > 0 && is_ws(s[0]) {
        trim_start_ws(s.drop_first())
    } else {
        s
    }
}

/// `s` with trailing whitespace removed.
pub open spec fn trim_end_ws(s: Seq<char>) -> Seq<char>
    decreases s.len(),
{
    if s.len() > 0 && is_ws(s.last()) {
        trim_end_ws(s.drop_last())
    } else {
        s
    }
}

/// `s` with whitespace removed at both ends (`str::trim`).
pub open spec fn trim_ws(s: Seq<char>) -> Seq<char> {
    trim_end_ws(trim_start_ws(s))
}

/// `s` with every leading `c` removed (`str::trim_start_matches(c)`).
pub open spec fn trim_start_char(s: Seq<char>, c: char) -> Seq<char>
    decreases s.len(),
{
    if s.len() > 0 && s[0] == c {
        trim_start_char(s.drop_first(), c)
    } else {
        s
    }
}

/// `s` with every trailing `c` removed (`str::trim_end_matches(c)`).
pub open spec fn trim_end_char(s: Seq<char>, c: char) -> Seq<char>
    decreases s.len(),
{
    if s.len() > 0 && s.last() == c {
        trim_end_char(s.drop_last(), c)
    } else {
        s
    }
}

/// `s` with `c` removed at both ends (`str::trim_matches(c)`).
pub open spec fn trim_char(s: Seq<char>, c: char) -> Seq<char> {
    trim_end_char(trim_start_char(s, c), c)
}

/// Whether `s` begins with `p`.
pub open spec fn has_prefix(s: Seq<char>, p: Seq<char>) -> bool {
    p.len() <= s.len() && s.subrange(0, p.len() as int) == p
}

/// Whether `s` ends with `p`.
pub open spec fn has_suffix(s: Seq<char>, p: Seq<char>) -> bool {
    p.len() <= s.len() && s.subrange(s.len() - p.len(), s.len() as int) == p
}

/// Whether `p` occurs in `s` at position `i`.
pub open spec fn occurs_at(s: Seq<char>, p: Seq<char>, i: int) -> bool {
    0 <= i && i + p.len() <= s.len() && s.subrange(i, i + p.len()) == p
}

/// Whether `p` occurs anywhere in `s` (`str::contains`).
pub open spec fn contains_seq(s: Seq<char>, p: Seq<char>) -> bool {
    exists|i: int| occurs_at(s, p, i)
}

/// `s` with every non-overlapping occurrence of `from`, scanned from the
/// left, replaced by `to` (`str::replace` for a non-empty pattern).
pub open spec fn replace_all(s: Seq<char>, from: Seq<char>, to: Seq<char>) -> Seq<char>
    decreases s.len(),
{
    if from.len() == 0 || s.len() < from.len() {
        s
    } else if has_prefix(s, from) {
        to + replace_all(s.skip(from.len() as int), from, to)
    } else {
        seq![s[0]] + replace_all(s.drop_first(), from, to)
    }
}

/// Position of the first `c` in `s`, if any.
pub open spec fn first_index_of(s: Seq<char>, c: char) -> Option<int>
    decreases s.len(),
{
    if s.len() == 0 {
        None
    } else if s[0] == c {
        Some(0)
    } else {
        match first_index_of(s.drop_first(), c) {
            Some(i) => Some(i + 1),
            None => None,
        }
    }
}

/// `s` cut at every `sep` (`str::split(sep)`): always at least one piece.
pub open spec fn split_on(s: Seq<char>, sep: char) -> Seq<Seq<char>>
    decreases s.len(),
{
    match first_index_of(s, sep) {
        None => seq![s],
        Some(i) => {
            if 0 <= i < s.len() {
                seq![s.subrange(0, i)] + split_on(s.skip(i + 1), sep)
            } else {
                seq![s]
            }
        },
    }
}

/// The pieces of `parts` put together with `sep` between neighbours.
pub open spec fn join_with(parts: Seq<Seq<char>>, sep: Seq<char>) -> Seq<char>
    decreases parts.len(),
{
    if parts.len() == 0 {
        Seq::empty()
    } else if parts.len() == 1 {
        parts[0]
    } else {
        join_with(parts.drop_last(), sep) + sep + parts.last()
    }
}

pub proof fn lemma_first_index_of(s: Seq<char>, c: char)
    ensures
        match first_index_of(s, c) {
            Some(i) => 0 <= i < s.len() && s[i] == c && forall|j: int| 0 <= j < i ==> s[j] != c,
            None => forall|j: int| 0 <= j < s.len() ==> s[j] != c,
        },
    decreases s.len(),
{
    if s.len() > 0 && s[0] != c {
        lemma_first_index_of(s.drop_first(), c);
        match first_index_of(s.drop_first(), c) {
            Some(i) => {
                assert forall|j: int| 0 <= j < i + 1 implies s[j] != c by {
                    if j > 0 {
                        assert(s[j] == s.drop_first()[j - 1]);
                    }
                }
            },
            None => {
                assert forall|j: int| 0 <= j < s.len() implies s[j] != c by {
                    if j > 0 {
                        assert(s[j] == s.drop_first()[j - 1]);
                    }
                }
            },
        }
    }
}

#[verifier::external_body]
/// Appends one character to a `String` by calling `String::push`; the
/// contract claims the new text is the old text followed by `c`.
fn push_char(s: &mut String, c: char)
    ensures
        final(s)@ == old(s)@.push(c),
{
    s.push(c);
}

/// Whether `c` is whitespace in the sense of `char::is_whitespace`.
pub fn is_whitespace(c: char) -> (r: bool)
    ensures
        r == is_ws(c),
{
    c == ' ' || ('\t' <= c && c <= '\r') || c == '\u{85}' || c == '\u{a0}' || c == '\u{1680}'
        || ('\u{2000}' <= c && c <= '\u{200a}') || c == '\u{2028}' || c == '\u{2029}'
        || c == '\u{202f}' || c == '\u{205f}' || c == '\u{3000}'
}

/// The characters of `s`, in order.
pub fn chars_of(s: &str) -> (v: Vec<char>)
    ensures
        v@ == s@,
{
    let n = s.unicode_len();
    let mut v: Vec<char> = Vec::new();
    let mut i: usize = 0;
    while i < n
        invariant
            n == s@.len(),
            i <= n,
            v@ == s@.subrange(0, i as int),
        decreases n - i,
    {
        v.push(s.get_char(i));
        i = i + 1;
    }
    assert(s@.subrange(0, n as int) =~= s@);
    v
}

/// A `String` holding the characters `v[from..to]`.
pub fn string_of_range(v: &[char], from: usize, to: usize) -> (s: String)
    requires
        from <= to <= v@.len(),
    ensures
        s@ == v@.subrange(from as int, to as int),
{
    let mut s = String::new();
    let mut i: usize = from;
    while i < to
        invariant
            from <= i <= to <= v@.len(),
            s@ == v@.subrange(from as int, i as int),
        decreases to - i,
    {
        push_char(&mut s, v[i]);
        assert(v@.subrange(from as int, i + 1) =~= v@.subrange(from as int, i as int).push(v@[i as int]));
        i = i + 1;
    }
    s
}

/// A `String` holding the characters of `v`.
pub fn string_of(v: &[char]) -> (s: String)
    ensures
        s@ == v@,
{
    let s = string_of_range(v, 0, v.len());
    assert(v@.subrange(0, v@.len() as int) =~= v@);
    s
}

/// Appends the characters of `t` to `v`.
pub fn extend_chars(v: &mut Vec<char>, t: &str)
    ensures
        final(v)@ == old(v)@ + t@,
{
    let c = chars_of(t);
    let mut i: usize = 0;
    while i < c.len()
        invariant
            c@ == t@,
            i <= c@.len(),
            v@ == old(v)@ + c@.subrange(0, i as int),
        decreases c@.len() - i,
    {
        v.push(c[i]);
        assert(c@.subrange(0, i + 1) =~= c@.subrange(0, i as int).push(c@[i as int]));
        i = i + 1;
    }
    assert(c@.subrange(0, c@.len() as int) =~= c@);
}

/// Appends `t` to `s`.
pub fn append_str(s: &mut String, t: &str)
    ensures
        final(s)@ == old(s)@ + t@,
{
    s.append(t);
}

/// Index just past the leading whitespace of `v[from..to]`.
fn skip_ws_forward(v: &[char], from: usize, to: usize) -> (i: usize)
    requires
        from <= to <= v@.len(),
    ensures
        from <= i <= to,
        trim_start_ws(v@.subrange(from as int, to as int)) == v@.subrange(i as int, to as int),
{
    let mut i = from;
    while i < to && is_whitespace(v[i])
        invariant
            from <= i <= to <= v@.len(),
            trim_start_ws(v@.subrange(from as int, to as int)) == trim_start_ws(
                v@.subrange(i as int, to as int),
            ),
        decreases to - i,
    {
        assert(v@.subrange(i as int, to as int).drop_first() =~= v@.subrange(i + 1, to as int));
        i = i + 1;
    }
    i
}

/// Index just before the trailing whitespace of `v[from..to]`.
fn skip_ws_backward(v: &[char], from: usize, to: usize) -> (j: usize)
    requires
        from <= to <= v@.len(),
    ensures
        from <= j <= to,
        trim_end_ws(v@.subrange(from as int, to as int)) == v@.subrange(from as int, j as int),
{
    let mut j = to;
    while j > from && is_whitespace(v[j - 1])
        invariant
            from <= j <= to <= v@.len(),
            trim_end_ws(v@.subrange(from as int, to as int)) == trim_end_ws(
                v@.subrange(from as int, j as int),
            ),
        decreases j - from,
    {
        assert(v@.subrange(from as int, j as int).drop_last() =~= v@.subrange(
            from as int,
            j - 1,
        ));
        j = j - 1;
    }
    j
}

/// Bounds `(a, b)` with `v[a..b]` equal to `str::trim` of `v[from..to]`.
pub fn trim_bounds(v: &[char], from: usize, to: usize) -> (r: (usize, usize))
    requires
        from <= to <= v@.len(),
    ensures
        from <= r.0 <= r.1 <= to,
        trim_ws(v@.subrange(from as int, to as int)) == v@.subrange(r.0 as int, r.1 as int),
{
    let a = skip_ws_forward(v, from, to);
    let b = skip_ws_backward(v, a, to);
    (a, b)
}

/// Bounds of `v[from..to]` with trailing whitespace removed (`str::trim_end`).
pub fn trim_end_bound(v: &[char], from: usize, to: usize) -> (j: usize)
    requires
        from <= to <= v@.len(),
    ensures
        from <= j <= to,
        trim_end_ws(v@.subrange(from as int, to as int)) == v@.subrange(from as int, j as int),
{
    skip_ws_backward(v, from, to)
}

/// Index just past the leading copies of `c` in `v[from..to]`.
pub fn skip_char_forward(v: &[char], from: usize, to: usize, c: char) -> (i: usize)
    requires
        from <= to <= v@.len(),
    ensures
        from <= i <= to,
        trim_start_char(v@.subrange(from as int, to as int), c) == v@.subrange(i as int, to as int),
{
    let mut i = from;
    while i < to && v[i] == c
        invariant
            from <= i <= to <= v@.len(),
            trim_start_char(v@.subrange(from as int, to as int), c) == trim_start_char(
                v@.subrange(i as int, to as int),
                c,
            ),
        decreases to - i,
    {
        assert(v@.subrange(i as int, to as int).drop_first() =~= v@.subrange(i + 1, to as int));
        i = i + 1;
    }
    i
}

/// Index just before the trailing copies of `c` in `v[from..to]`.
pub fn skip_char_backward(v: &[char], from: usize, to: usize, c: char) -> (j: usize)
    requires
        from <= to <= v@.len(),
    ensures
        from <= j <= to,
        trim_end_char(v@.subrange(from as int, to as int), c) == v@.subrange(from as int, j as int),
{
    let mut j = to;
    while j > from && v[j - 1] == c
        invariant
            from <= j <= to <= v@.len(),
            trim_end_char(v@.subrange(from as int, to as int), c) == trim_end_char(
                v@.subrange(from as int, j as int),
                c,
            ),
        decreases j - from,
    {
        assert(v@.subrange(from as int, j as int).drop_last() =~= v@.subrange(
            from as int,
            j - 1,
        ));
        j = j - 1;
    }
    j
}

/// Whether `c` occurs in `s`.
pub fn has_char(s: &[char], c: char) -> (r: bool)
    ensures
        r == s@.contains(c),
{
    let mut i: usize = 0;
    while i < s.len()
        invariant
            i <= s@.len(),
            forall|j: int| 0 <= j < i ==> s@[j] != c,
        decreases s@.len() - i,
    {
        if s[i] == c {
            assert(s@[i as int] == c);
            return true;
        }
        i = i + 1;
    }
    false
}

/// Whether `s` and `t` hold the same characters.
pub fn same_text(s: &str, t: &str) -> (r: bool)
    ensures
        r == (s@ == t@),
{
    let a = chars_of(s);
    let b = chars_of(t);
    chars_equal(&a, &b)
}

/// Whether two character slices are equal.
pub fn chars_equal(a: &[char], b: &[char]) -> (r: bool)
    ensures
        r == (a@ == b@),
{
    if a.len() != b.len() {
        return false;
    }
    let mut i: usize = 0;
    while i < a.len()
        invariant
            a@.len() == b@.len(),
            i <= a@.len(),
            forall|j: int| 0 <= j < i ==> a@[j] == b@[j],
        decreases a@.len() - i,
    {
        if a[i] != b[i] {
            return false;
        }
        i = i + 1;
    }
    assert(a@ =~= b@);
    true
}

/// Whether `p` occurs in `s` at position `i`.
pub fn occurs_at_exec(s: &[char], p: &[char], i: usize) -> (r: bool)
    ensures
        r == occurs_at(s@, p@, i as int),
{
    if i > s.len() || p.len() > s.len() - i {
        return false;
    }
    let mut k: usize = 0;
    while k < p.len()
        invariant
            i + p@.len() <= s@.len(),
            s@.len() == s.len(),
            k <= p@.len(),
            forall|j: int| 0 <= j < k ==> s@[i + j] == p@[j],
        decreases p@.len() - k,
    {
        if s[i + k] != p[k] {
            assert(s@.subrange(i as int, i + p@.len())[k as int] != p@[k as int]);
            return false;
        }
        k = k + 1;
    }
    assert(s@.subrange(i as int, i + p@.len()) =~= p@);
    true
}

/// Whether `s` begins with `p`.
pub fn starts_with_chars(s: &[char], p: &[char]) -> (r: bool)
    ensures
        r == has_prefix(s@, p@),
{
    let r = occurs_at_exec(s, p, 0);
    assert(r == has_prefix(s@, p@));
    r
}

/// Whether `s` ends with `p`.
pub fn ends_with_chars(s: &[char], p: &[char]) -> (r: bool)
    ensures
        r == has_suffix(s@, p@),
{
    if p.len() > s.len() {
        return false;
    }
    occurs_at_exec(s, p, s.len() - p.len())
}

/// Whether `p` occurs anywhere in `s`.
pub fn contains_chars(s: &[char], p: &[char]) -> (r: bool)
    ensures
        r == contains_seq(s@, p@),
{
    if p.len() > s.len() {
        assert forall|i: int| !occurs_at(s@, p@, i) by {}
        return false;
    }
    let limit = s.len() - p.len();
    let mut i: usize = 0;
    loop
        invariant
            p@.len() <= s@.len(),
            limit == s@.len() - p@.len(),
            i <= limit,
            forall|j: int| 0 <= j < i ==> !occurs_at(s@, p@, j),
        decreases limit - i,
    {
        if occurs_at_exec(s, p, i) {
            return true;
        }
        if i == limit {
            assert forall|j: int| !occurs_at(s@, p@, j) by {
                if 0 <= j <= i {
                }
            }
            return false;
        }
        i = i + 1;
    }
}

/// The texts of a list of strings.
pub open spec fn texts(v: Seq<String>) -> Seq<Seq<char>> {
    v.map_values(|s: String| s@)
}

/// The texts after a push.
pub proof fn lemma_texts_push(v: Seq<String>, s: String)
    ensures
        texts(v.push(s)) == texts(v).push(s@),
{
    assert(texts(v.push(s)) =~= texts(v).push(s@));
}

/// A copy of a list of strings.
pub fn clone_strings(v: &Vec<String>) -> (r: Vec<String>)
    ensures
        r@ == v@,
{
    let mut r: Vec<String> = Vec::new();
    let mut i: usize = 0;
    while i < v.len()
        invariant
            i <= v@.len(),
            r@ == v@.subrange(0, i as int),
        decreases v@.len() - i,
    {
        let s = v[i].clone();
        r.push(s);
        assert(r@ =~= v@.subrange(0, i + 1));
        i = i + 1;
    }
    assert(v@.subrange(0, v@.len() as int) =~= v@);
    r
}

/// Whether `v` holds a string with the text of `s`.
pub fn contains_text(v: &Vec<String>, s: &str) -> (r: bool)
    ensures
        r == texts(v@).contains(s@),
{
    let mut i: usize = 0;
    while i < v.len()
        invariant
            i <= v@.len(),
            forall|k: int| 0 <= k < i ==> v@[k]@ != s@,
        decreases v@.len() - i,
    {
        if same_text(v[i].as_str(), s) {
            assert(texts(v@)[i as int] == s@);
            return true;
        }
        i = i + 1;
    }
    assert forall|k: int| 0 <= k < texts(v@).len() implies texts(v@)[k] != s@ by {
        assert(texts(v@)[k] == v@[k]@);
    }
    false
}

/// `s` with every non-overlapping occurrence of the non-empty `from`,
/// scanned from the left, replaced by `to` (`str::replace`).
pub fn replace_text(s: &str, from: &str, to: &str) -> (r: String)
    requires
        from@.len() > 0,
    ensures
        r@ == replace_all(s@, from@, to@),
{
    let v = chars_of(s);
    let p = chars_of(from);
    let t = chars_of(to);
    let mut out: Vec<char> = Vec::new();
    let mut i: usize = 0;
    assert(s@.skip(0) =~= s@);
    assert(out@ + replace_all(s@, from@, to@) =~= replace_all(s@, from@, to@));
    while i < v.len()
        invariant
            v@ == s@,
            p@ == from@,
            t@ == to@,
            p@.len() > 0,
            i <= v@.len(),
            replace_all(s@, from@, to@) == out@ + replace_all(s@.skip(i as int), from@, to@),
        decreases v@.len() - i,
    {
        let ghost rest = s@.skip(i as int);
        if occurs_at_exec(&v, &p, i) {
            proof {
                assert(rest.subrange(0, p@.len() as int) =~= v@.subrange(i as int, i + p@.len()));
                assert(rest.skip(p@.len() as int) =~= s@.skip(i + p@.len()));
            }
            let mut k: usize = 0;
            let ghost before = out@;
            while k < t.len()
                invariant
                    k <= t@.len(),
                    out@ == before + t@.subrange(0, k as int),
                decreases t@.len() - k,
            {
                out.push(t[k]);
                assert(t@.subrange(0, k + 1) =~= t@.subrange(0, k as int).push(t@[k as int]));
                k = k + 1;
            }
            assert(t@.subrange(0, t@.len() as int) =~= t@);
            assert(before + (t@ + replace_all(s@.skip(i + p@.len()), from@, to@)) =~= (before + t@)
                + replace_all(s@.skip(i + p@.len()), from@, to@));
            i = i + p.len();
        } else {
            proof {
                if rest.len() >= p@.len() {
                    assert(rest.subrange(0, p@.len() as int) =~= v@.subrange(
                        i as int,
                        i + p@.len(),
                    ));
                }
                assert(rest.drop_first() =~= s@.skip(i + 1));
                if rest.len() < p@.len() {
                    assert(replace_all(s@.skip(i + 1), from@, to@) == s@.skip(i + 1));
                    assert(rest =~= seq![v@[i as int]] + s@.skip(i + 1));
                }
            }
            let ghost before = out@;
            out.push(v[i]);
            assert(before + (seq![v@[i as int]] + replace_all(s@.skip(i + 1), from@, to@)) =~= out@
                + replace_all(s@.skip(i + 1), from@, to@));
            i = i + 1;
        }
    }
    assert(replace_all(s@.skip(i as int), from@, to@) =~= Seq::<char>::empty()) by {
        assert(s@.skip(i as int).len() == 0);
    }
    assert(out@ + Seq::<char>::empty() =~= out@);
    string_of(&out)
}

/// Whether `a` comes before `b` in character order (`str` ordering).
pub open spec fn seq_lt(a: Seq<char>, b: Seq<char>) -> bool
    decreases a.len(),
{
    if a.len() == 0 {
        b.len() > 0
    } else if b.len() == 0 {
        false
    } else if a[0] != b[0] {
        a[0] < b[0]
    } else {
        seq_lt(a.drop_first(), b.drop_first())
    }
}

/// Whether `a` comes before `b` in character order.
pub fn text_less(a: &str, b: &str) -> (r: bool)
    ensures
        r == seq_lt(a@, b@),
{
    let x = chars_of(a);
    let y = chars_of(b);
    let mut i: usize = 0;
    assert(a@.skip(0) =~= a@);
    assert(b@.skip(0) =~= b@);
    while i < x.len() && i < y.len() && x[i] == y[i]
        invariant
            x@ == a@,
            y@ == b@,
            i <= x@.len(),
            i <= y@.len(),
            seq_lt(a@, b@) == seq_lt(a@.skip(i as int), b@.skip(i as int)),
        decreases x@.len() - i,
    {
        assert(a@.skip(i as int).drop_first() =~= a@.skip(i + 1));
        assert(b@.skip(i as int).drop_first() =~= b@.skip(i + 1));
        i = i + 1;
    }
    if i == x.len() {
        i < y.len()
    } else if i == y.len() {
        false
    } else {
        x[i] < y[i]
    }
}

/// The position of the first `c` in `v`, if any.
pub fn find_first(v: &[char], c: char) -> (r: Option<usize>)
    ensures
        match r {
            Some(k) => first_index_of(v@, c) == Some(k as int),
            None => first_index_of(v@, c) is None,
        },
{
    proof {
        lemma_first_index_of(v@, c);
    }
    let mut i: usize = 0;
    while i < v.len()
        invariant
            i <= v@.len(),
            forall|j: int| 0 <= j < i ==> v@[j] != c,
            match first_index_of(v@, c) {
                Some(k) => 0 <= k < v@.len() && v@[k] == c && forall|j: int| 0 <= j < k ==> v@[j] != c,
                None => forall|j: int| 0 <= j < v@.len() ==> v@[j] != c,
            },
        decreases v@.len() - i,
    {
        if v[i] == c {
            proof {
                match first_index_of(v@, c) {
                    Some(k) => {
                        if k < i {
                            assert(v@[k] != c);
                        }
                        if k > i {
                            assert(v@[i as int] != c);
                        }
                    },
                    None => {
                        assert(v@[i as int] != c);
                    },
                }
            }
            return Some(i);
        }
        i = i + 1;
    }
    proof {
        match first_index_of(v@, c) {
            Some(k) => {
                assert(v@[k] != c);
            },
            None => {},
        }
    }
    None
}

/// The character of the digit `k`.
pub open spec fn digit_char(k: nat) -> char {
    (k + 48) as char
}

/// The decimal text of `n`.
pub open spec fn decimal_text(n: nat) -> Seq<char>
    decreases n,
{
    if n < 10 {
        seq![digit_char(n)]
    } else {
        decimal_text(n / 10).push(digit_char(n % 10))
    }
}

/// The character of the digit `k`.
fn digit_of(k: u64) -> (c: char)
    requires
        k < 10,
    ensures
        c == digit_char(k as nat),
{
    ((k as u8) + 48) as char
}

/// The decimal text of `n`.
pub fn nat_text(n: u64) -> (r: String)
    ensures
        r@ == decimal_text(n as nat),
{
    let mut rev: Vec<char> = Vec::new();
    let mut m: u64 = n;
    assert(decimal_text(n as nat) =~= decimal_text(m as nat) + rev@.reverse());
    while m >= 10
        invariant
            decimal_text(n as nat) == decimal_text(m as nat) + rev@.reverse(),
        decreases m,
    {
        let d = digit_of(m % 10);
        let ghost before = rev@;
        rev.push(d);
        assert(rev@.reverse() =~= seq![d] + before.reverse());
        assert(decimal_text(m as nat) == decimal_text((m / 10) as nat).push(d));
        assert(decimal_text((m / 10) as nat).push(d) + before.reverse() =~= decimal_text(
            (m / 10) as nat,
        ) + (seq![d] + before.reverse()));
        m = m / 10;
    }
    let d = digit_of(m);
    let ghost before = rev@;
    rev.push(d);
    assert(rev@.reverse() =~= seq![d] + before.reverse());
    assert(decimal_text(n as nat) =~= rev@.reverse());
    let mut out: Vec<char> = Vec::new();
    let mut j = rev.len();
    while j > 0
        invariant
            j <= rev@.len(),
            out@ =~= rev@.subrange(j as int, rev@.len() as int).reverse(),
        decreases j,
    {
        j = j - 1;
        let ghost before_out = out@;
        out.push(rev[j]);
        assert(rev@.subrange(j as int, rev@.len() as int).reverse() =~= before_out.push(rev@[j as int]));
    }
    assert(rev@.subrange(0, rev@.len() as int) =~= rev@);
    string_of(&out)
}

/// The decimal text of `n`, with `-` before a negative number.
pub open spec fn signed_text(n: int) -> Seq<char> {
    if n < 0 {
        seq!['-'] + decimal_text((-n) as nat)
    } else {
        decimal_text(n as nat)
    }
}

/// The decimal text of `n` (`i64::to_string`).
pub fn int_text(n: i64) -> (r: String)
    ensures
        r@ == signed_text(n as int),
{
    if n < 0 {
        let m: u64 = (-(n as i128)) as u64;
        let t = nat_text(m);
        let mut s = String::from_str("-");
        proof {
            reveal_strlit("-");
        }
        s.append(t.as_str());
        s
    } else {
        nat_text(n as u64)
    }
}

/// Trimming never lengthens a text.
pub proof fn lemma_trim_shortens(s: Seq<char>)
    ensures
        trim_start_ws(s).len() <= s.len(),
        trim_end_ws(s).len() <= s.len(),
    decreases s.len(),
{
    if s.len() > 0 {
        lemma_trim_shortens(s.drop_first());
        lemma_trim_shortens(s.drop_last());
    }
}

/// A text that trimming leaves alone neither starts nor ends with
/// whitespace.
pub proof fn lemma_trimmed_ends(s: Seq<char>)
    requires
        trim_ws(s) == s,
        s.len() > 0,
    ensures
        !is_ws(s[0]),
        !is_ws(s.last()),
{
    lemma_trim_shortens(s.drop_first());
    lemma_trim_shortens(s.drop_last());
    lemma_trim_shortens(trim_start_ws(s));
    if is_ws(s[0]) {
        lemma_trim_shortens(trim_start_ws(s.drop_first()));
    } else {
        assert(trim_start_ws(s) == s);
    }
}

/// Whitespace trimming leaves alone a text that neither starts nor ends
/// with whitespace.
pub proof fn lemma_trim_keeps(s: Seq<char>)
    requires
        s.len() > 0,
        !is_ws(s[0]),
        !is_ws(s.last()),
    ensures
        trim_ws(s) == s,
        trim_end_ws(s) == s,
{
    assert(trim_start_ws(s) == s);
}

/// Character order is transitive.
pub proof fn lemma_seq_lt_transitive(a: Seq<char>, b: Seq<char>, c: Seq<char>)
    requires
        seq_lt(a, b),
        seq_lt(b, c),
    ensures
        seq_lt(a, c),
    decreases a.len(),
{
    if a.len() > 0 && b.len() > 0 && c.len() > 0 && a[0] == b[0] && b[0] == c[0] {
        lemma_seq_lt_transitive(a.drop_first(), b.drop_first(), c.drop_first());
    }
}

/// Of two different texts, one comes before the other.
pub proof fn lemma_seq_lt_total(a: Seq<char>, b: Seq<char>)
    requires
        a != b,
    ensures
        seq_lt(a, b) || seq_lt(b, a),
    decreases a.len(),
{
    if a.len() > 0 && b.len() > 0 && a[0] == b[0] {
        assert(a.drop_first() != b.drop_first()) by {
            if a.drop_first() == b.drop_first() {
                assert(a =~= seq![a[0]] + a.drop_first());
                assert(b =~= seq![b[0]] + b.drop_first());
            }
        }
        lemma_seq_lt_total(a.drop_first(), b.drop_first());
    } else if a.len() == 0 && b.len() == 0 {
        assert(a =~= b);
    }
}

/// No text comes before itself.
pub proof fn lemma_seq_lt_irreflexive(a: Seq<char>)
    ensures
        !seq_lt(a, a),
    decreases a.len(),
{
    if a.len() > 0 {
        lemma_seq_lt_irreflexive(a.drop_first());
    }
}

/// The keys of a list of keyed entries.
pub open spec fn entry_keys<V>(l: Seq<(String, V)>) -> Seq<Seq<char>> {
    l.map_values(|e: (String, V)| e.0@)
}

/// Whether the keys ascend strictly in character order, so that the
/// entries form an ordered map.
pub open spec fn keys_ordered(keys: Seq<Seq<char>>) -> bool {
    forall|i: int, j: int| 0 <= i < j < keys.len() ==> seq_lt(#[trigger] keys[i], #[trigger] keys[j])
}

/// In an ordered map each key occurs once.
pub proof fn lemma_ordered_keys_distinct(keys: Seq<Seq<char>>, i: int, j: int)
    requires
        keys_ordered(keys),
        0 <= i < keys.len(),
        0 <= j < keys.len(),
        i != j,
    ensures
        keys[i] != keys[j],
{
    lemma_seq_lt_irreflexive(keys[i]);
    if i < j {
        assert(seq_lt(keys[i], keys[j]));
    } else {
        assert(seq_lt(keys[j], keys[i]));
    }
}

/// Whether the keys of `l` ascend strictly in character order.
pub fn entries_ordered<V>(l: &Vec<(String, V)>) -> (r: bool)
    ensures
        r == keys_ordered(entry_keys(l@)),
{
    let ghost keys = entry_keys(l@);
    let mut i: usize = 1;
    if l.len() == 0 {
        return true;
    }
    while i < l.len()
        invariant
            1 <= i <= l@.len(),
            keys == entry_keys(l@),
            forall|a: int, b: int| 0 <= a < b < i ==> seq_lt(#[trigger] keys[a], #[trigger] keys[b]),
        decreases l@.len() - i,
    {
        if !text_less(l[i - 1].0.as_str(), l[i].0.as_str()) {
            assert(!seq_lt(keys[i - 1], keys[i as int]));
            return false;
        }
        assert forall|a: int, b: int| 0 <= a < b < i + 1 implies seq_lt(
            #[trigger] keys[a],
            #[trigger] keys[b],
        ) by {
            if b == i && a < i - 1 {
                lemma_seq_lt_transitive(keys[a], keys[i - 1], keys[b]);
            }
        }
        i = i + 1;
    }
    true
}

/// Replacing a pattern that does not occur leaves the text as it is.
pub proof fn lemma_replace_absent(s: Seq<char>, from: Seq<char>, to: Seq<char>)
    requires
        !contains_seq(s, from),
    ensures
        replace_all(s, from, to) == s,
    decreases s.len(),
{
    if from.len() == 0 || s.len() < from.len() {
    } else {
        if has_prefix(s, from) {
            assert(occurs_at(s, from, 0));
        }
        let t = s.drop_first();
        assert(!contains_seq(t, from)) by {
            if contains_seq(t, from) {
                let i = choose|i: int| occurs_at(t, from, i);
                assert(s.subrange(i + 1, i + 1 + from.len()) =~= t.subrange(i, i + from.len()));
                assert(occurs_at(s, from, i + 1));
            }
        }
        lemma_replace_absent(t, from, to);
        assert(seq![s[0]] + t =~= s);
    }
}

} // verus!
