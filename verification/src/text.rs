//! Character-level text operations shared by the formatter and the webhook
//! channel: Unicode whitespace, trimming, whitespace collapsing and
//! truncation with an ellipsis.

use vstd::prelude::*;

verus! {

/// The ellipsis appended to text cut short by [`truncate_chars`].
pub const ELLIPSIS: char = '…';

/// The Unicode `White_Space` property, as used by `char::is_whitespace`,
/// `str::trim` and `str::split_whitespace`.
pub open spec fn is_ws(c: char) -> bool {
    ||| ('\u{9}' <= c && c <= '\u{d}')
    ||| c == ' '
    ||| c == '\u{85}'
    ||| c == '\u{a0}'
    ||| c == '\u{1680}'
    ||| ('\u{2000}' <= c && c <= '\u{200a}')
    ||| c == '\u{2028}'
    ||| c == '\u{2029}'
    ||| c == '\u{202f}'
    ||| c == '\u{205f}'
    ||| c == '\u{3000}'
}

/// Whether `c` has the Unicode `White_Space` property.
pub fn is_whitespace(c: char) -> (r: bool)
    ensures
        r == is_ws(c),
{
    ('\u{9}' <= c && c <= '\u{d}') || c == ' ' || c == '\u{85}' || c == '\u{a0}' || c
        == '\u{1680}' || ('\u{2000}' <= c && c <= '\u{200a}') || c == '\u{2028}' || c
        == '\u{2029}' || c == '\u{202f}' || c == '\u{205f}' || c == '\u{3000}'
}

pub assume_specification[ String::push ](s: &mut String, ch: char)
    ensures
        final(s)@ == old(s)@.push(ch),
;

/// The characters of `s`, in order.
pub fn chars_of(s: &str) -> (v: Vec<char>)
    ensures
        v@ == s@,
{
    let mut v: Vec<char> = Vec::new();
    for c in it: s.chars()
        invariant
            it.seq() == s@,
            v@ == it.seq().take(it.index() as int),
    {
        v.push(c);
    }
    v
}

/// A string made of the characters of `v`, in order.
pub fn string_from_chars(v: &Vec<char>) -> (s: String)
    ensures
        s@ == v@,
{
    let mut s = String::new();
    let mut i: usize = 0;
    while i < v.len()
        invariant
            i <= v.len(),
            s@ == v@.take(i as int),
        decreases v.len() - i,
    {
        s.push(v[i]);
        i = i + 1;
        assert(v@.take(i as int) == v@.take(i - 1).push(v@[i - 1]));
    }
    assert(v@.take(v.len() as int) == v@);
    s
}


// ---------------------------------------------------------------------------
// Trimming
// ---------------------------------------------------------------------------

/// `s` without its leading whitespace.
pub open spec fn trim_start_ws(s: Seq<char>) -> Seq<char>
    decreases s.len(),
{
    if s.len() > 0 && is_ws(s[0]) {
        trim_start_ws(s.drop_first())
    } else {
        s
    }
}

/// `s` without its trailing whitespace.
pub open spec fn trim_end_ws(s: Seq<char>) -> Seq<char>
    decreases s.len(),
{
    if s.len() > 0 && is_ws(s.last()) {
        trim_end_ws(s.drop_last())
    } else {
        s
    }
}

/// `s` without leading and trailing whitespace (what `str::trim` returns).
pub open spec fn trim_ws(s: Seq<char>) -> Seq<char> {
    trim_end_ws(trim_start_ws(s))
}

proof fn lemma_trim_start_skip(s: Seq<char>, a: int)
    requires
        0 <= a <= s.len(),
        forall|i: int| 0 <= i < a ==> is_ws(#[trigger] s[i]),
        a == s.len() || !is_ws(s[a]),
    ensures
        trim_start_ws(s) == s.skip(a),
    decreases a,
{
    if a == 0 {
        assert(s.skip(0) == s);
    } else {
        let t = s.drop_first();
        assert forall|i: int| 0 <= i < a - 1 implies is_ws(#[trigger] t[i]) by {
            assert(t[i] == s[i + 1]);
        }
        if a - 1 < t.len() {
            assert(t[a - 1] == s[a]);
        }
        lemma_trim_start_skip(t, a - 1);
        assert(t.skip(a - 1) == s.skip(a));
    }
}

proof fn lemma_trim_end_take(s: Seq<char>, b: int)
    requires
        0 <= b <= s.len(),
        forall|i: int| b <= i < s.len() ==> is_ws(#[trigger] s[i]),
        b == 0 || !is_ws(s[b - 1]),
    ensures
        trim_end_ws(s) == s.take(b),
    decreases s.len() - b,
{
    if b == s.len() {
        assert(s.take(b) == s);
    } else {
        let t = s.drop_last();
        assert forall|i: int| b <= i < t.len() implies is_ws(#[trigger] t[i]) by {
            assert(t[i] == s[i]);
        }
        if b > 0 {
            assert(t[b - 1] == s[b - 1]);
        }
        lemma_trim_end_take(t, b);
        assert(t.take(b) == s.take(b));
    }
}

/// The characters of `v` without leading and trailing whitespace.
pub fn trim_chars(v: &Vec<char>) -> (r: Vec<char>)
    ensures
        r@ == trim_ws(v@),
{
    let n = v.len();
    let mut a: usize = 0;
    while a < n && is_whitespace(v[a])
        invariant
            a <= n == v.len(),
            forall|i: int| 0 <= i < a ==> is_ws(#[trigger] v@[i]),
        decreases n - a,
    {
        a = a + 1;
    }
    proof {
        lemma_trim_start_skip(v@, a as int);
    }
    let ghost t = v@.skip(a as int);
    let mut b: usize = n;
    while b > a && is_whitespace(v[b - 1])
        invariant
            a <= b <= n == v.len(),
            forall|i: int| b <= i < n ==> is_ws(#[trigger] v@[i]),
        decreases b,
    {
        b = b - 1;
    }
    proof {
        assert forall|i: int| b - a <= i < t.len() implies is_ws(#[trigger] t[i]) by {
            assert(t[i] == v@[i + a]);
        }
        if b > a {
            assert(t[b - a - 1] == v@[b - 1]);
        }
        lemma_trim_end_take(t, (b - a) as int);
    }
    let mut r: Vec<char> = Vec::new();
    let mut i: usize = a;
    while i < b
        invariant
            a <= i <= b <= n == v.len(),
            r@ == v@.subrange(a as int, i as int),
        decreases b - i,
    {
        r.push(v[i]);
        i = i + 1;
        assert(v@.subrange(a as int, i as int) == v@.subrange(a as int, i - 1).push(v@[i - 1]));
    }
    assert(t.take((b - a) as int) == v@.subrange(a as int, b as int));
    r
}

/// `text` without leading and trailing whitespace.
pub fn trim(text: &str) -> (r: String)
    ensures
        r@ == trim_ws(text@),
{
    let v = chars_of(text);
    let t = trim_chars(&v);
    string_from_chars(&t)
}

proof fn lemma_trim_start_exists(s: Seq<char>)
    ensures
        exists|a: int|
            0 <= a <= s.len() && trim_start_ws(s) == s.skip(a) && (forall|i: int|
                0 <= i < a ==> is_ws(#[trigger] s[i])) && (a == s.len() || !is_ws(s[a])),
    decreases s.len(),
{
    if s.len() > 0 && is_ws(s[0]) {
        let t = s.drop_first();
        lemma_trim_start_exists(t);
        let a = choose|a: int|
            0 <= a <= t.len() && trim_start_ws(t) == t.skip(a) && (forall|i: int|
                0 <= i < a ==> is_ws(#[trigger] t[i])) && (a == t.len() || !is_ws(t[a]));
        assert(t.skip(a) == s.skip(a + 1));
        assert forall|i: int| 0 <= i < a + 1 implies is_ws(#[trigger] s[i]) by {
            if i > 0 {
                assert(s[i] == t[i - 1]);
            }
        }
        if a < t.len() {
            assert(s[a + 1] == t[a]);
        }
    } else {
        assert(s.skip(0) == s);
    }
}

proof fn lemma_trim_end_exists(s: Seq<char>)
    ensures
        exists|b: int|
            0 <= b <= s.len() && trim_end_ws(s) == s.take(b) && (forall|i: int|
                b <= i < s.len() ==> is_ws(#[trigger] s[i])) && (b == 0 || !is_ws(s[b - 1])),
    decreases s.len(),
{
    if s.len() > 0 && is_ws(s.last()) {
        let t = s.drop_last();
        lemma_trim_end_exists(t);
        let b = choose|b: int|
            0 <= b <= t.len() && trim_end_ws(t) == t.take(b) && (forall|i: int|
                b <= i < t.len() ==> is_ws(#[trigger] t[i])) && (b == 0 || !is_ws(t[b - 1]));
        assert(t.take(b) == s.take(b));
        assert forall|i: int| b <= i < s.len() implies is_ws(#[trigger] s[i]) by {
            if i < t.len() {
                assert(s[i] == t[i]);
            }
        }
        if b > 0 {
            assert(s[b - 1] == t[b - 1]);
        }
    } else {
        assert(s.take(s.len() as int) == s);
    }
}

/// Trimming removes only whitespace at the two ends: the result is the
/// slice `s[a..b]` where everything before `a` and from `b` on is
/// whitespace, and the slice, unless empty, starts and ends with
/// non-whitespace. Inner whitespace, line breaks included, is kept.
pub proof fn lemma_trim_is_slice(s: Seq<char>)
    ensures
        exists|a: int, b: int|
            0 <= a <= b <= s.len() && trim_ws(s) == s.subrange(a, b) && (forall|i: int|
                0 <= i < a ==> is_ws(#[trigger] s[i])) && (forall|i: int|
                b <= i < s.len() ==> is_ws(#[trigger] s[i])) && (a < b ==> !is_ws(s[a]) && !is_ws(
                s[b - 1],
            )),
{
    lemma_trim_start_exists(s);
    let a = choose|a: int|
        0 <= a <= s.len() && trim_start_ws(s) == s.skip(a) && (forall|i: int|
            0 <= i < a ==> is_ws(#[trigger] s[i])) && (a == s.len() || !is_ws(s[a]));
    let t = s.skip(a);
    lemma_trim_end_exists(t);
    let c = choose|b: int|
        0 <= b <= t.len() && trim_end_ws(t) == t.take(b) && (forall|i: int|
            b <= i < t.len() ==> is_ws(#[trigger] t[i])) && (b == 0 || !is_ws(t[b - 1]));
    let b = a + c;
    assert(t.take(c) == s.subrange(a, b));
    assert forall|i: int| b <= i < s.len() implies is_ws(#[trigger] s[i]) by {
        assert(s[i] == t[i - a]);
    }
    if a < b {
        assert(s[a] == t[0]);
        assert(s[b - 1] == t[c - 1]);
    }
}

// ---------------------------------------------------------------------------
// Collapsing whitespace
// ---------------------------------------------------------------------------

/// Reading `s` from left to right: the words seen so far joined by single
/// spaces, and whether whitespace has been seen since the last word
/// character.
pub open spec fn collapse_state(s: Seq<char>) -> (Seq<char>, bool)
    decreases s.len(),
{
    if s.len() == 0 {
        (Seq::empty(), false)
    } else {
        let (out, gap) = collapse_state(s.drop_last());
        let c = s.last();
        if is_ws(c) {
            (out, true)
        } else if gap && out.len() > 0 {
            (out.push(' ').push(c), false)
        } else {
            (out.push(c), false)
        }
    }
}

/// The whitespace-separated words of `s` joined by single spaces (what
/// `s.split_whitespace().collect::<Vec<_>>().join(" ")` gives).
pub open spec fn collapse_ws(s: Seq<char>) -> Seq<char> {
    collapse_state(s).0
}

/// The words of `v` joined by single spaces.
pub fn collapse_whitespace_chars(v: &Vec<char>) -> (r: Vec<char>)
    ensures
        r@ == collapse_ws(v@),
{
    let mut out: Vec<char> = Vec::new();
    let mut gap = false;
    let mut i: usize = 0;
    while i < v.len()
        invariant
            i <= v.len(),
            (out@, gap) == collapse_state(v@.take(i as int)),
        decreases v.len() - i,
    {
        let c = v[i];
        assert(v@.take(i + 1).drop_last() == v@.take(i as int));
        if is_whitespace(c) {
            gap = true;
        } else {
            if gap && out.len() > 0 {
                out.push(' ');
            }
            out.push(c);
            gap = false;
        }
        i = i + 1;
    }
    assert(v@.take(v.len() as int) == v@);
    out
}

// ---------------------------------------------------------------------------
// Truncation
// ---------------------------------------------------------------------------

/// `t` cut to at most `max` characters: unchanged when it fits, otherwise
/// its first `max - 1` characters (none when `max` is 0) followed by an
/// ellipsis.
pub open spec fn truncated(t: Seq<char>, max: nat) -> Seq<char> {
    if t.len() <= max {
        t
    } else {
        t.take(if max == 0 { 0 } else { max - 1 }).push(ELLIPSIS)
    }
}

/// `v` cut to at most `max_chars` characters, with an ellipsis where it was cut.
pub fn truncate_char_vec(v: Vec<char>, max_chars: usize) -> (r: Vec<char>)
    ensures
        r@ == truncated(v@, max_chars as nat),
{
    if v.len() <= max_chars {
        return v;
    }
    let keep: usize = if max_chars == 0 { 0 } else { max_chars - 1 };
    let mut r: Vec<char> = Vec::new();
    let mut i: usize = 0;
    while i < keep
        invariant
            keep < v.len(),
            i <= keep,
            r@ == v@.take(i as int),
        decreases keep - i,
    {
        r.push(v[i]);
        i = i + 1;
        assert(v@.take(i as int) == v@.take(i - 1).push(v@[i - 1]));
    }
    r.push(ELLIPSIS);
    r
}

/// `text` cut to at most `max_chars` characters: unchanged when it fits,
/// otherwise its first `max_chars - 1` characters followed by `…`.
pub fn truncate_chars(text: &str, max_chars: usize) -> (r: String)
    ensures
        r@ == truncated(text@, max_chars as nat),
{
    let v = chars_of(text);
    let t = truncate_char_vec(v, max_chars);
    string_from_chars(&t)
}


// ---------------------------------------------------------------------------
// Comparing and prefixes
// ---------------------------------------------------------------------------

/// Whether `a` and `b` hold the same characters.
pub fn str_equal(a: &str, b: &str) -> (r: bool)
    ensures
        r == (a@ == b@),
{
    let x = chars_of(a);
    let y = chars_of(b);
    if x.len() != y.len() {
        return false;
    }
    let mut i: usize = 0;
    while i < x.len()
        invariant
            i <= x.len() == y.len(),
            x@ == a@,
            y@ == b@,
            forall|j: int| 0 <= j < i ==> x@[j] == y@[j],
        decreases x.len() - i,
    {
        if x[i] != y[i] {
            assert(x@[i as int] != y@[i as int]);
            return false;
        }
        i = i + 1;
    }
    assert(x@ =~= y@);
    true
}

/// `s` with every leading repetition of the non-empty prefix `p` removed
/// (what `str::trim_start_matches(p)` gives for a string pattern); an empty
/// `p` leaves `s` as it is.
pub open spec fn without_leading(s: Seq<char>, p: Seq<char>) -> Seq<char>
    decreases s.len(),
{
    if p.len() > 0 && p.len() <= s.len() && s.take(p.len() as int) == p {
        without_leading(s.skip(p.len() as int), p)
    } else {
        s
    }
}

/// `text` with every leading repetition of `prefix` removed.
pub fn trim_start_matches(text: &str, prefix: &str) -> (r: String)
    ensures
        r@ == without_leading(text@, prefix@),
{
    let s = chars_of(text);
    let p = chars_of(prefix);
    let n = p.len();
    let mut i: usize = 0;
    let mut done = n == 0;
    assert(s@.skip(0) == s@);
    while !done
        invariant
            i <= s.len(),
            s@ == text@,
            p@ == prefix@,
            n == p.len(),
            n == 0 ==> done,
            without_leading(s@, p@) == without_leading(s@.skip(i as int), p@),
            done ==> without_leading(s@.skip(i as int), p@) == s@.skip(i as int),
        decreases s.len() - i + (if done { 0int } else { 1int }),
    {
        let mut matches = n <= s.len() - i;
        let mut j: usize = 0;
        while matches && j < n
            invariant
                i <= s.len(),
                n == p.len(),
                j <= n,
                matches ==> n <= s.len() - i,
                matches ==> forall|k: int| 0 <= k < j ==> s@[i + k] == p@[k],
                !matches ==> (n > s.len() - i || exists|k: int| 0 <= k < j && s@[i + k] != p@[k]),
            decreases n - j,
        {
            if s[i + j] != p[j] {
                matches = false;
            }
            j = j + 1;
        }
        let ghost rest = s@.skip(i as int);
        if matches {
            assert(rest.take(n as int) =~= p@) by {
                assert forall|k: int| 0 <= k < n implies rest.take(n as int)[k] == p@[k] by {
                    assert(rest[k] == s@[i + k]);
                }
            }
            assert(rest.skip(n as int) == s@.skip(i + n));
            i = i + n;
        } else {
            proof {
                if n > 0 && n <= rest.len() && rest.take(n as int) == p@ {
                    assert(forall|k: int| 0 <= k < n ==> rest.take(n as int)[k] == s@[i + k]);
                    assert(false);
                }
            }
            done = true;
        }
    }
    let mut out: Vec<char> = Vec::new();
    let mut k: usize = i;
    while k < s.len()
        invariant
            i <= k <= s.len(),
            out@ == s@.subrange(i as int, k as int),
        decreases s.len() - k,
    {
        out.push(s[k]);
        k = k + 1;
        assert(s@.subrange(i as int, k as int) == s@.subrange(i as int, k - 1).push(s@[k - 1]));
    }
    assert(s@.subrange(i as int, s.len() as int) == s@.skip(i as int));
    string_from_chars(&out)
}

// ---------------------------------------------------------------------------
// Words
// ---------------------------------------------------------------------------

/// The words of `s`: its maximal runs of non-whitespace characters, in
/// order. A word starts at a non-whitespace character that opens `s` or
/// follows whitespace, and runs up to the next whitespace or the end.
pub open spec fn words(s: Seq<char>) -> Seq<Seq<char>>
    decreases s.len(),
{
    if s.len() == 0 {
        Seq::empty()
    } else if is_ws(s.last()) {
        words(s.drop_last())
    } else if s.len() > 1 && !is_ws(s[s.len() - 2]) {
        let w = words(s.drop_last());
        w.drop_last().push(w.last().push(s.last()))
    } else {
        words(s.drop_last()).push(seq![s.last()])
    }
}

/// `ws` joined with single spaces.
pub open spec fn join_with_spaces(ws: Seq<Seq<char>>) -> Seq<char>
    decreases ws.len(),
{
    if ws.len() == 0 {
        Seq::empty()
    } else if ws.len() == 1 {
        ws[0]
    } else {
        join_with_spaces(ws.drop_last()) + seq![' '] + ws.last()
    }
}

/// `ws` run together.
pub open spec fn concat_all(ws: Seq<Seq<char>>) -> Seq<char>
    decreases ws.len(),
{
    if ws.len() == 0 {
        Seq::empty()
    } else {
        concat_all(ws.drop_last()) + ws.last()
    }
}

/// The non-whitespace characters of `s`, in order.
pub open spec fn non_ws(s: Seq<char>) -> Seq<char>
    decreases s.len(),
{
    if s.len() == 0 {
        s
    } else if is_ws(s.last()) {
        non_ws(s.drop_last())
    } else {
        non_ws(s.drop_last()).push(s.last())
    }
}

/// Every word is non-empty and holds no whitespace.
pub open spec fn proper_words(ws: Seq<Seq<char>>) -> bool {
    forall|i: int|
        0 <= i < ws.len() ==> (#[trigger] ws[i]).len() > 0 && forall|j: int|
            0 <= j < ws[i].len() ==> !is_ws(#[trigger] ws[i][j])
}

proof fn lemma_join_extend_last(w: Seq<Seq<char>>, c: char)
    requires
        w.len() > 0,
    ensures
        join_with_spaces(w.drop_last().push(w.last().push(c))) == join_with_spaces(w).push(c),
        concat_all(w.drop_last().push(w.last().push(c))) == concat_all(w).push(c),
{
    let v = w.drop_last().push(w.last().push(c));
    assert(v.drop_last() == w.drop_last());
    if w.len() == 1 {
        assert(join_with_spaces(v) == v[0]);
    } else {
        assert(join_with_spaces(v) =~= join_with_spaces(w).push(c));
    }
    assert(concat_all(v) =~= concat_all(w).push(c));
}

proof fn lemma_join_push(w: Seq<Seq<char>>, c: char)
    ensures
        w.len() > 0 ==> join_with_spaces(w.push(seq![c])) == join_with_spaces(w).push(' ').push(c),
        w.len() == 0 ==> join_with_spaces(w.push(seq![c])) == seq![c],
        concat_all(w.push(seq![c])) == concat_all(w).push(c),
{
    let v = w.push(seq![c]);
    assert(v.drop_last() == w);
    if w.len() > 0 {
        assert(join_with_spaces(v) =~= join_with_spaces(w).push(' ').push(c));
    }
    assert(concat_all(v) =~= concat_all(w).push(c));
}

proof fn lemma_join_nonempty(w: Seq<Seq<char>>)
    requires
        proper_words(w),
    ensures
        (join_with_spaces(w).len() == 0) == (w.len() == 0),
{
    if w.len() > 1 {
        assert(w.last() == w[w.len() - 1]);
    } else if w.len() == 1 {
        assert(w[0].len() > 0);
    }
}

proof fn lemma_collapse_words(s: Seq<char>)
    ensures
        collapse_state(s) == (join_with_spaces(words(s)), s.len() > 0 && is_ws(s.last())),
        proper_words(words(s)),
        concat_all(words(s)) == non_ws(s),
        (s.len() > 0 && !is_ws(s.last())) ==> words(s).len() > 0,
    decreases s.len(),
{
    if s.len() > 0 {
        let t = s.drop_last();
        let c = s.last();
        lemma_collapse_words(t);
        let w = words(t);
        lemma_join_nonempty(w);
        if !is_ws(c) {
            if s.len() > 1 && !is_ws(s[s.len() - 2]) {
                assert(t.last() == s[s.len() - 2]);
                lemma_join_extend_last(w, c);
                let v = w.drop_last().push(w.last().push(c));
                assert forall|i: int| 0 <= i < v.len() implies (#[trigger] v[i]).len() > 0 && forall|
                    j: int,
                | 0 <= j < v[i].len() ==> !is_ws(#[trigger] v[i][j]) by {
                    if i < v.len() - 1 {
                        assert(v[i] == w[i]);
                    } else {
                        assert(v[i] == w[w.len() - 1].push(c));
                        assert forall|j: int| 0 <= j < v[i].len() implies !is_ws(#[trigger] v[i][j]) by {
                            if j < w[w.len() - 1].len() {
                                assert(v[i][j] == w[w.len() - 1][j]);
                            }
                        }
                    }
                }
            } else {
                if t.len() > 0 {
                    assert(t.last() == s[s.len() - 2]);
                }
                lemma_join_push(w, c);
                let v = w.push(seq![c]);
                assert forall|i: int| 0 <= i < v.len() implies (#[trigger] v[i]).len() > 0 && forall|
                    j: int,
                | 0 <= j < v[i].len() ==> !is_ws(#[trigger] v[i][j]) by {
                    if i < w.len() {
                        assert(v[i] == w[i]);
                    } else {
                        assert(v[i] == seq![c]);
                    }
                }
            }
        }
    }
}

/// Collapsing joins the words of `s` with single spaces: its maximal runs
/// of non-whitespace characters, each kept whole and in order, with nothing
/// else. The words are non-empty, hold no whitespace, and together hold every
/// non-whitespace character of `s`.
pub proof fn lemma_collapse_is_words_joined(s: Seq<char>)
    ensures
        collapse_ws(s) == join_with_spaces(words(s)),
        proper_words(words(s)),
        concat_all(words(s)) == non_ws(s),
{
    lemma_collapse_words(s);
}

// ---------------------------------------------------------------------------
// Laws
// ---------------------------------------------------------------------------

/// Whether `t` is on one line with single spaces: every whitespace
/// character is a space standing between two non-whitespace characters.
pub open spec fn is_collapsed(t: Seq<char>) -> bool {
    forall|i: int|
        0 <= i < t.len() && is_ws(#[trigger] t[i]) ==> t[i] == ' ' && 0 < i && i + 1 < t.len()
            && !is_ws(t[i - 1]) && !is_ws(t[i + 1])
}

proof fn lemma_collapse_state_shape(s: Seq<char>)
    ensures
        is_collapsed(collapse_state(s).0),
        collapse_state(s).0.len() > 0 ==> !is_ws(collapse_state(s).0.last()),
    decreases s.len(),
{
    if s.len() > 0 {
        lemma_collapse_state_shape(s.drop_last());
        let (out, gap) = collapse_state(s.drop_last());
        let c = s.last();
        if !is_ws(c) {
            if gap && out.len() > 0 {
                let n = out.push(' ').push(c);
                assert forall|i: int| 0 <= i < n.len() && is_ws(#[trigger] n[i]) implies n[i] == ' '
                    && 0 < i && i + 1 < n.len() && !is_ws(n[i - 1]) && !is_ws(n[i + 1]) by {
                    if i < out.len() {
                        assert(n[i] == out[i]);
                        assert(n[i - 1] == out[i - 1]);
                        if i + 1 < out.len() {
                            assert(n[i + 1] == out[i + 1]);
                        }
                    }
                }
            } else {
                let n = out.push(c);
                assert forall|i: int| 0 <= i < n.len() && is_ws(#[trigger] n[i]) implies n[i] == ' '
                    && 0 < i && i + 1 < n.len() && !is_ws(n[i - 1]) && !is_ws(n[i + 1]) by {
                    assert(n[i] == out[i]);
                    assert(n[i - 1] == out[i - 1]);
                    if i + 1 < out.len() {
                        assert(n[i + 1] == out[i + 1]);
                    }
                }
            }
        }
    }
}

/// What collapsing gives is on one line with single spaces.
pub proof fn lemma_collapse_is_collapsed(s: Seq<char>)
    ensures
        is_collapsed(collapse_ws(s)),
{
    lemma_collapse_state_shape(s);
}

proof fn lemma_collapse_state_of_collapsed(t: Seq<char>, k: int)
    requires
        is_collapsed(t),
        0 <= k <= t.len(),
    ensures
        collapse_state(t.take(k)) == (if k > 0 && t[k - 1] == ' ' {
            (t.take(k - 1), true)
        } else {
            (t.take(k), false)
        }),
    decreases k,
{
    if k > 0 {
        lemma_collapse_state_of_collapsed(t, k - 1);
        assert(t.take(k).drop_last() == t.take(k - 1));
        assert(t.take(k).last() == t[k - 1]);
        let c = t[k - 1];
        if is_ws(c) {
            assert(c == ' ' && k - 1 > 0 && !is_ws(t[k - 2]));
        } else {
            if k > 1 && t[k - 2] == ' ' {
                assert(is_ws(t[k - 2]));
                assert(k - 2 > 0);
                assert(t.take(k - 2).push(' ').push(c) == t.take(k));
            } else {
                assert(t.take(k - 1).push(c) == t.take(k));
            }
        }
    }
}

/// Collapsing leaves text that is already on one line with single spaces
/// unchanged, so collapsing twice is collapsing once.
pub proof fn lemma_collapse_idempotent(s: Seq<char>)
    ensures
        is_collapsed(s) ==> collapse_ws(s) == s,
        collapse_ws(collapse_ws(s)) == collapse_ws(s),
{
    if is_collapsed(s) {
        lemma_collapse_state_of_collapsed(s, s.len() as int);
        assert(s.take(s.len() as int) == s);
        if s.len() > 0 && s[s.len() - 1] == ' ' {
            assert(is_ws(s[s.len() - 1]));
        }
    }
    let t = collapse_ws(s);
    lemma_collapse_is_collapsed(s);
    lemma_collapse_state_of_collapsed(t, t.len() as int);
    assert(t.take(t.len() as int) == t);
    if t.len() > 0 && t[t.len() - 1] == ' ' {
        assert(is_ws(t[t.len() - 1]));
    }
}

/// Truncation to `max` characters: the result has at most `max` characters
/// (exactly `min(len, max)` for `max >= 1`), starts with the text's
/// beginning, and truncating again changes nothing.
pub proof fn lemma_truncated_props(t: Seq<char>, max: nat)
    requires
        max >= 1,
    ensures
        truncated(t, max).len() == if t.len() <= max { t.len() } else { max },
        t.len() > max ==> truncated(t, max) == t.take(max - 1).push(ELLIPSIS),
        t.len() <= max ==> truncated(t, max) == t,
        truncated(truncated(t, max), max) == truncated(t, max),
{
}

/// Truncating text that is on one line with single spaces keeps it so.
pub proof fn lemma_truncated_keeps_collapsed(t: Seq<char>, max: nat)
    requires
        is_collapsed(t),
    ensures
        is_collapsed(truncated(t, max)),
{
    if t.len() > max {
        let keep: int = if max == 0 { 0 } else { max - 1 };
        let u = truncated(t, max);
        assert(u == t.take(keep).push(ELLIPSIS));
        assert forall|i: int| 0 <= i < u.len() && is_ws(#[trigger] u[i]) implies u[i] == ' ' && 0 < i
            && i + 1 < u.len() && !is_ws(u[i - 1]) && !is_ws(u[i + 1]) by {
            if i < keep {
                assert(u[i] == t[i]);
                assert(u[i - 1] == t[i - 1]);
                if i + 1 < keep {
                    assert(u[i + 1] == t[i + 1]);
                }
            }
        }
    }
}

// ---------------------------------------------------------------------------
// Whitespace runs
// ---------------------------------------------------------------------------

/// `s` with every maximal run of whitespace replaced by a single space.
pub open spec fn ws_runs_to_space(s: Seq<char>) -> Seq<char>
    decreases s.len(),
{
    if s.len() == 0 {
        s
    } else {
        let p = ws_runs_to_space(s.drop_last());
        if !is_ws(s.last()) {
            p.push(s.last())
        } else if s.len() > 1 && is_ws(s[s.len() - 2]) {
            p
        } else {
            p.push(' ')
        }
    }
}

proof fn lemma_ws_runs_shape(s: Seq<char>)
    ensures
        ({
            let r = ws_runs_to_space(s);
            &&& forall|i: int| 0 <= i < r.len() && is_ws(#[trigger] r[i]) ==> r[i] == ' '
            &&& forall|i: int| 0 <= i < r.len() - 1 && is_ws(#[trigger] r[i]) ==> !is_ws(r[i + 1])
            &&& (r.len() > 0) == (s.len() > 0)
            &&& r.len() > 0 ==> (is_ws(r.last()) == is_ws(s.last()))
            &&& r.len() > 0 ==> (is_ws(r[0]) == is_ws(s[0]))
        }),
    decreases s.len(),
{
    if s.len() > 0 {
        let t = s.drop_last();
        let c = s.last();
        lemma_ws_runs_shape(t);
        let p = ws_runs_to_space(t);
        let r = ws_runs_to_space(s);
        if t.len() > 0 {
            assert(t.last() == s[s.len() - 2]);
            assert(t[0] == s[0]);
        }
        if !is_ws(c) || !(s.len() > 1 && is_ws(s[s.len() - 2])) {
            let x = if is_ws(c) { ' ' } else { c };
            assert(r == p.push(x));
            assert forall|i: int| 0 <= i < r.len() && is_ws(#[trigger] r[i]) implies r[i] == ' ' by {
                if i < p.len() {
                    assert(r[i] == p[i]);
                }
            }
            assert forall|i: int| 0 <= i < r.len() - 1 && is_ws(#[trigger] r[i]) implies !is_ws(
                r[i + 1],
            ) by {
                assert(r[i] == p[i]);
                if i + 1 < p.len() {
                    assert(r[i + 1] == p[i + 1]);
                }
            }
        }
    }
}

/// Replacing whitespace runs in text that does not start or end with
/// whitespace leaves it on one line with single spaces.
pub proof fn lemma_ws_runs_collapsed(s: Seq<char>)
    requires
        s.len() > 0 ==> !is_ws(s[0]) && !is_ws(s.last()),
    ensures
        is_collapsed(ws_runs_to_space(s)),
{
    lemma_ws_runs_shape(s);
    let r = ws_runs_to_space(s);
    assert forall|i: int| 0 <= i < r.len() && is_ws(#[trigger] r[i]) implies r[i] == ' ' && 0 < i
        && i + 1 < r.len() && !is_ws(r[i - 1]) && !is_ws(r[i + 1]) by {
        if i == 0 {
            assert(r[0] == r[i]);
        }
        if i == r.len() - 1 {
            assert(r.last() == r[i]);
        }
        if 0 < i && is_ws(r[i - 1]) {
            assert(!is_ws(r[(i - 1) + 1]));
        }
    }
}

proof fn lemma_trim_start_first(s: Seq<char>)
    ensures
        trim_start_ws(s).len() > 0 ==> !is_ws(trim_start_ws(s)[0]),
        trim_start_ws(s).len() > 0 ==> s.len() > 0,
    decreases s.len(),
{
    if s.len() > 0 && is_ws(s[0]) {
        lemma_trim_start_first(s.drop_first());
    }
}

proof fn lemma_trim_end_ends(u: Seq<char>)
    ensures
        trim_end_ws(u).len() > 0 ==> !is_ws(trim_end_ws(u).last()),
        trim_end_ws(u).len() > 0 ==> trim_end_ws(u)[0] == u[0],
    decreases u.len(),
{
    if u.len() > 0 && is_ws(u.last()) {
        lemma_trim_end_ends(u.drop_last());
        if trim_end_ws(u).len() > 0 {
            assert(u.drop_last()[0] == u[0]);
        }
    }
}

/// Trimmed text starts and ends with non-whitespace (or is empty).
pub proof fn lemma_trim_ends(s: Seq<char>)
    ensures
        trim_ws(s).len() > 0 ==> !is_ws(trim_ws(s)[0]) && !is_ws(trim_ws(s).last()),
{
    lemma_trim_start_first(s);
    lemma_trim_end_ends(trim_start_ws(s));
}

/// Text on one line with single spaces is its own trim.
pub proof fn lemma_collapsed_is_trimmed(t: Seq<char>)
    requires
        is_collapsed(t),
    ensures
        trim_ws(t) == t,
{
    if t.len() > 0 {
        assert(!is_ws(t[0]));
        assert(!is_ws(t[t.len() - 1]));
        assert(t.last() == t[t.len() - 1]);
    }
}

} // verus!
