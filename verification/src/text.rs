//! Character-level text utilities over `Seq<char>`: whitespace, trimming,
//! substring search, pattern removal and word splitting.
use vstd::prelude::*;

verus! {

broadcast use vstd::string::group_string_axioms;

/// Unicode `White_Space`, the set that `char::is_whitespace` tests.
pub open spec fn is_ws(c: char) -> bool {
    ||| ('\u{9}' <= c && c <= '\u{d}')
    ||| c == ' '
    ||| c == '\u{85}'
    ||| c == '\u{a0}'
    ||| c == '\u{1680}'
    ||| ('\u{2000}' <= c && c <= '\u{200a}')
    ||| c == '\u{2028}'
    ||| c == '\u{2029}'
    ||| c == '\u{202f}'
    ||| c == '\u{205f}'
    ||| c == '\u{3000}'
}

/// Whether `c` is whitespace.
pub fn is_whitespace(c: char) -> (b: bool)
    ensures
        b == is_ws(c),
{
    ('\u{9}' <= c && c <= '\u{d}') || c == ' ' || c == '\u{85}' || c == '\u{a0}' || c == '\u{1680}'
        || ('\u{2000}' <= c && c <= '\u{200a}') || c == '\u{2028}' || c == '\u{2029}' || c
        == '\u{202f}' || c == '\u{205f}' || c == '\u{3000}'
}

/// The characters of a string slice.
pub fn chars_of(s: &str) -> (r: Vec<char>)
    ensures
        r@ == s@,
{
    let mut r: Vec<char> = Vec::new();
    for c in it: s.chars()
        invariant
            r@ == it.seq().take(it.index() as int),
    {
        r.push(c);
    }
    r
}


/// Appends one character to a `String` (`String::push`).
#[verifier::external_body]
fn push_char(s: &mut String, c: char)
    ensures
        final(s)@ == old(s)@.push(c),
{
    s.push(c);
}

/// The string made of the given characters.
pub fn string_from(v: &[char]) -> (s: String)
    ensures
        s@ == v@,
{
    let mut s = String::new();
    let mut i: usize = 0;
    while i < v.len()
        invariant
            i <= v@.len(),
            s@ == v@.take(i as int),
        decreases v@.len() - i,
    {
        push_char(&mut s, v[i]);
        i = i + 1;
        assert(s@ =~= v@.take(i as int));
    }
    assert(v@.take(v@.len() as int) =~= v@);
    s
}

/// `pat` occurs in `s` at position `i`.
pub open spec fn occurs_at(s: Seq<char>, pat: Seq<char>, i: int) -> bool {
    0 <= i && i + pat.len() <= s.len() && s.subrange(i, i + pat.len()) == pat
}

fn occurs_at_exec(s: &Vec<char>, pat: &Vec<char>, i: usize) -> (b: bool)
    requires
        i + pat@.len() <= s@.len(),
    ensures
        b == occurs_at(s@, pat@, i as int),
{
    let mut k: usize = 0;
    while k < pat.len()
        invariant
            i + pat@.len() <= s@.len(),
            s@.len() == s.len(),
            k <= pat@.len(),
            forall|j: int| 0 <= j < k ==> s@[i + j] == pat@[j],
        decreases pat@.len() - k,
    {
        if s[i + k] != pat[k] {
            assert(s@.subrange(i as int, i + pat@.len())[k as int] != pat@[k as int]);
            return false;
        }
        k = k + 1;
    }
    assert(s@.subrange(i as int, i + pat@.len()) =~= pat@);
    true
}

/// Leading whitespace removed (`str::trim_start`).
pub open spec fn trim_start(s: Seq<char>) -> Seq<char>
    decreases s.len(),
{
    if s.len() > 0 && is_ws(s[0]) {
        trim_start(s.drop_first())
    } else {
        s
    }
}

/// Trailing whitespace removed (`str::trim_end`).
pub open spec fn trim_end(s: Seq<char>) -> Seq<char>
    decreases s.len(),
{
    if s.len() > 0 && is_ws(s.last()) {
        trim_end(s.drop_last())
    } else {
        s
    }
}

/// Leading and trailing whitespace removed (`str::trim`).
pub open spec fn trim(s: Seq<char>) -> Seq<char> {
    trim_end(trim_start(s))
}

proof fn lemma_trim_start(s: Seq<char>, k: int)
    requires
        0 <= k <= s.len(),
        forall|j: int| 0 <= j < k ==> is_ws(#[trigger] s[j]),
        k == s.len() || !is_ws(s[k]),
    ensures
        trim_start(s) == s.skip(k),
    decreases k,
{
    if k == 0 {
        assert(s.skip(0) =~= s);
    } else {
        let t = s.drop_first();
        assert forall|j: int| 0 <= j < k - 1 implies is_ws(#[trigger] t[j]) by {
            assert(t[j] == s[j + 1]);
        }
        lemma_trim_start(t, k - 1);
        assert(t.skip(k - 1) =~= s.skip(k));
    }
}

proof fn lemma_trim_end(s: Seq<char>, e: int)
    requires
        0 <= e <= s.len(),
        forall|j: int| e <= j < s.len() ==> is_ws(#[trigger] s[j]),
        e == 0 || !is_ws(s[e - 1]),
    ensures
        trim_end(s) == s.take(e),
    decreases s.len() - e,
{
    if e == s.len() {
        assert(s.take(e) =~= s);
    } else {
        let t = s.drop_last();
        assert forall|j: int| e <= j < t.len() implies is_ws(#[trigger] t[j]) by {
            assert(t[j] == s[j]);
        }
        lemma_trim_end(t, e);
        assert(t.take(e) =~= s.take(e));
    }
}

/// The characters of `v` without leading and trailing whitespace.
pub fn trim_chars(v: &Vec<char>) -> (r: Vec<char>)
    ensures
        r@ == trim(v@),
{
    let n = v.len();
    let mut start: usize = 0;
    while start < n && is_whitespace(v[start])
        invariant
            n == v@.len(),
            start <= n,
            forall|j: int| 0 <= j < start ==> is_ws(#[trigger] v@[j]),
        decreases n - start,
    {
        start = start + 1;
    }
    let mut end: usize = n;
    while end > start && is_whitespace(v[end - 1])
        invariant
            n == v@.len(),
            start <= end <= n,
            forall|j: int| end <= j < n ==> is_ws(#[trigger] v@[j]),
        decreases end,
    {
        end = end - 1;
    }
    let mut r: Vec<char> = Vec::new();
    let mut i: usize = start;
    while i < end
        invariant
            n == v@.len(),
            start <= i <= end <= n,
            r@ == v@.subrange(start as int, i as int),
        decreases end - i,
    {
        r.push(v[i]);
        i = i + 1;
        assert(r@ =~= v@.subrange(start as int, i as int));
    }
    proof {
        lemma_trim_start(v@, start as int);
        let t = v@.skip(start as int);
        assert forall|j: int| end - start <= j < t.len() implies is_ws(#[trigger] t[j]) by {
            assert(t[j] == v@[j + start]);
        }
        if end > start {
            assert(t[end - start - 1] == v@[end - 1]);
        }
        lemma_trim_end(t, end - start);
        assert(t.take(end - start) =~= v@.subrange(start as int, end as int));
    }
    r
}

/// The string `s` without leading and trailing whitespace.
pub fn trim_string(s: &str) -> (r: String)
    ensures
        r@ == trim(s@),
{
    let v = chars_of(s);
    let t = trim_chars(&v);
    string_from(t.as_slice())
}

/// Every occurrence of `pat`, scanned left to right without overlap, removed
/// (`str::replace(pat, "")`).
pub open spec fn remove_all(s: Seq<char>, pat: Seq<char>) -> Seq<char>
    decreases s.len(),
{
    if s.len() == 0 {
        s
    } else if pat.len() > 0 && occurs_at(s, pat, 0) {
        remove_all(s.skip(pat.len() as int), pat)
    } else {
        seq![s[0]] + remove_all(s.drop_first(), pat)
    }
}

/// `v` with every occurrence of the non-empty pattern `pat` removed.
pub fn remove_all_chars(v: &Vec<char>, pat: &Vec<char>) -> (r: Vec<char>)
    requires
        pat@.len() > 0,
    ensures
        r@ == remove_all(v@, pat@),
{
    let n = v.len();
    let m = pat.len();
    let mut r: Vec<char> = Vec::new();
    let mut i: usize = 0;
    assert(v@.skip(0) =~= v@);
    while i < n
        invariant
            n == v@.len(),
            m == pat@.len(),
            m > 0,
            i <= n,
            r@ + remove_all(v@.skip(i as int), pat@) == remove_all(v@, pat@),
        decreases n - i,
    {
        let ghost rest = v@.skip(i as int);
        if m <= n - i && occurs_at_exec(v, pat, i) {
            assert(rest.subrange(0, m as int) =~= v@.subrange(i as int, i + m));
            assert(rest.skip(m as int) =~= v@.skip(i + m));
            i = i + m;
        } else {
            proof {
                if m <= n - i {
                    assert(rest.subrange(0, m as int) =~= v@.subrange(i as int, i + m));
                }
            }
            assert(rest.drop_first() =~= v@.skip(i + 1));
            assert(r@.push(v@[i as int]) + remove_all(v@.skip(i + 1), pat@) =~= r@ + (seq![
                v@[i as int],
            ] + remove_all(v@.skip(i + 1), pat@)));
            r.push(v[i]);
            i = i + 1;
        }
    }
    assert(v@.skip(n as int).len() == 0);
    assert(r@ + remove_all(v@.skip(n as int), pat@) =~= r@);
    r
}

/// The string `s` with every occurrence of the non-empty pattern `pat` removed.
pub fn remove_all_str(s: &str, pat: &str) -> (r: String)
    requires
        pat@.len() > 0,
    ensures
        r@ == remove_all(s@, pat@),
{
    let v = chars_of(s);
    let p = chars_of(pat);
    let t = remove_all_chars(&v, &p);
    string_from(t.as_slice())
}

/// The position of the first `c` in `v`, if any (`str::find` on a character).
pub fn find_char(v: &Vec<char>, c: char) -> (r: Option<usize>)
    ensures
        r matches Some(i) ==> i < v@.len() && v@[i as int] == c && forall|j: int|
            0 <= j < i ==> v@[j] != c,
        r is None ==> forall|j: int| 0 <= j < v@.len() ==> v@[j] != c,
{
    let mut i: usize = 0;
    while i < v.len()
        invariant
            i <= v@.len(),
            forall|j: int| 0 <= j < i ==> v@[j] != c,
        decreases v@.len() - i,
    {
        if v[i] == c {
            return Some(i);
        }
        i = i + 1;
    }
    None
}

/// The words of `s` given the word `cur` read so far.
pub open spec fn words_from(s: Seq<char>, cur: Seq<char>) -> Seq<Seq<char>>
    decreases s.len(),
{
    let done: Seq<Seq<char>> = if cur.len() > 0 {
        seq![cur]
    } else {
        seq![]
    };
    if s.len() == 0 {
        done
    } else if is_ws(s[0]) {
        done + words_from(s.drop_first(), seq![])
    } else {
        words_from(s.drop_first(), cur.push(s[0]))
    }
}

/// The maximal runs of non-whitespace characters of `s`, in order
/// (`str::split_whitespace`).
pub open spec fn words(s: Seq<char>) -> Seq<Seq<char>> {
    words_from(s, seq![])
}

/// The views of a sequence of strings.
pub open spec fn strings_view(v: Seq<String>) -> Seq<Seq<char>> {
    v.map_values(|w: String| w@)
}

/// The words of `s`, each a `String`.
pub fn split_whitespace(s: &str) -> (r: Vec<String>)
    ensures
        strings_view(r@) == words(s@),
{
    let v = chars_of(s);
    let n = v.len();
    let mut out: Vec<String> = Vec::new();
    let mut cur: Vec<char> = Vec::new();
    let mut i: usize = 0;
    assert(v@.skip(0) =~= v@);
    assert(strings_view(out@) =~= seq![]);
    while i < n
        invariant
            n == v@.len(),
            i <= n,
            strings_view(out@) + words_from(v@.skip(i as int), cur@) == words(v@),
        decreases n - i,
    {
        let ghost rest = v@.skip(i as int);
        assert(rest.drop_first() =~= v@.skip(i + 1));
        assert(rest[0] == v@[i as int]);
        let c = v[i];
        if is_whitespace(c) {
            if cur.len() > 0 {
                let w = string_from(cur.as_slice());
                let ghost before = out@;
                out.push(w);
                assert(strings_view(out@) =~= strings_view(before) + seq![cur@]);
                assert(strings_view(out@) + words_from(v@.skip(i + 1), seq![]) =~= strings_view(
                    before,
                ) + (seq![cur@] + words_from(v@.skip(i + 1), seq![])));
            } else {
                assert(words_from(rest, cur@) =~= words_from(v@.skip(i + 1), seq![]));
            }
            cur = Vec::new();
        } else {
            cur.push(c);
        }
        i = i + 1;
    }
    if cur.len() > 0 {
        let w = string_from(cur.as_slice());
        let ghost before = out@;
        out.push(w);
        assert(strings_view(out@) =~= strings_view(before) + seq![cur@]);
    } else {
        assert(strings_view(out@) + words_from(v@.skip(n as int), cur@) =~= strings_view(out@));
    }
    out
}

/// `pre` is a prefix of `s` (`str::starts_with`).
pub open spec fn starts_with(s: Seq<char>, pre: Seq<char>) -> bool {
    occurs_at(s, pre, 0)
}

/// Whether `v` starts with the string `pre`.
pub fn starts_with_str(v: &Vec<char>, pre: &str) -> (b: bool)
    ensures
        b == starts_with(v@, pre@),
{
    let p = chars_of(pre);
    if p.len() > v.len() {
        false
    } else {
        occurs_at_exec(v, &p, 0)
    }
}

/// The characters of `v` from `start` to `end`.
pub fn slice_chars(v: &Vec<char>, start: usize, end: usize) -> (r: Vec<char>)
    requires
        start <= end <= v@.len(),
    ensures
        r@ == v@.subrange(start as int, end as int),
{
    let mut r: Vec<char> = Vec::new();
    let mut i: usize = start;
    while i < end
        invariant
            start <= i <= end <= v@.len(),
            r@ == v@.subrange(start as int, i as int),
        decreases end - i,
    {
        r.push(v[i]);
        i = i + 1;
        assert(r@ =~= v@.subrange(start as int, i as int));
    }
    r
}

/// Removing a pattern that occurs nowhere leaves the text as it is.
pub proof fn lemma_remove_absent(s: Seq<char>, pat: Seq<char>)
    requires
        forall|i: int| !#[trigger] occurs_at(s, pat, i),
    ensures
        remove_all(s, pat) == s,
    decreases s.len(),
{
    if s.len() > 0 {
        let t = s.drop_first();
        assert forall|i: int| !#[trigger] occurs_at(t, pat, i) by {
            if occurs_at(t, pat, i) {
                assert(s.subrange(i + 1, i + 1 + pat.len()) =~= t.subrange(i, i + pat.len()));
                assert(occurs_at(s, pat, i + 1));
            }
        }
        lemma_remove_absent(t, pat);
        assert(!occurs_at(s, pat, 0));
        assert(seq![s[0]] + t =~= s);
    }
}

/// Removing a single character that the text does not hold leaves it as it is.
pub proof fn lemma_remove_absent_char(s: Seq<char>, c: char)
    requires
        forall|i: int| 0 <= i < s.len() ==> s[i] != c,
    ensures
        remove_all(s, seq![c]) == s,
{
    assert forall|i: int| !#[trigger] occurs_at(s, seq![c], i) by {
        if occurs_at(s, seq![c], i) {
            assert(s.subrange(i, i + 1)[0] == c);
        }
    }
    lemma_remove_absent(s, seq![c]);
}

/// A text that neither starts nor ends with whitespace is its own trim.
pub proof fn lemma_trim_trimmed(s: Seq<char>)
    requires
        s.len() == 0 || (!is_ws(s[0]) && !is_ws(s.last())),
    ensures
        trim(s) == s,
{
}

/// The pattern at the front of a text is removed, and removal goes on after it.
pub proof fn lemma_remove_prefix(pat: Seq<char>, rest: Seq<char>)
    requires
        pat.len() > 0,
    ensures
        remove_all(pat + rest, pat) == remove_all(rest, pat),
{
    let s = pat + rest;
    assert(s.subrange(0, pat.len() as int) =~= pat);
    assert(s.skip(pat.len() as int) =~= rest);
}

/// The leading whitespace of `s` ends at `a`, and `trim_start` keeps what follows.
proof fn lemma_trim_start_shape(s: Seq<char>) -> (a: int)
    ensures
        0 <= a <= s.len(),
        trim_start(s) == s.skip(a),
        forall|j: int| 0 <= j < a ==> is_ws(#[trigger] s[j]),
        a == s.len() || !is_ws(s[a]),
    decreases s.len(),
{
    if s.len() > 0 && is_ws(s[0]) {
        let t = s.drop_first();
        let a = lemma_trim_start_shape(t);
        assert(t.skip(a) =~= s.skip(a + 1));
        assert forall|j: int| 0 <= j < a + 1 implies is_ws(#[trigger] s[j]) by {
            if j > 0 {
                assert(s[j] == t[j - 1]);
            }
        }
        a + 1
    } else {
        assert(s.skip(0) =~= s);
        0
    }
}

/// The trailing whitespace of `s` starts at `e`, and `trim_end` keeps what precedes.
proof fn lemma_trim_end_shape(s: Seq<char>) -> (e: int)
    ensures
        0 <= e <= s.len(),
        trim_end(s) == s.take(e),
        forall|j: int| e <= j < s.len() ==> is_ws(#[trigger] s[j]),
        e == 0 || !is_ws(s[e - 1]),
    decreases s.len(),
{
    if s.len() > 0 && is_ws(s.last()) {
        let t = s.drop_last();
        let e = lemma_trim_end_shape(t);
        assert(t.take(e) =~= s.take(e));
        assert forall|j: int| e <= j < s.len() implies is_ws(#[trigger] s[j]) by {
            if j < s.len() - 1 {
                assert(s[j] == t[j]);
            }
        }
        e
    } else {
        assert(s.take(s.len() as int) =~= s);
        s.len() as int
    }
}

/// Trimming keeps a contiguous part of the text and drops only whitespace
/// around it: the result starts and ends with a non-whitespace character
/// (or is empty), and the text is whitespace, then the result, then
/// whitespace.
pub proof fn law_trim(s: Seq<char>)
    ensures
        ({
            let t = trim(s);
            &&& t.len() == 0 || (!is_ws(t[0]) && !is_ws(t.last()))
            &&& exists|a: int|
                #![trigger s.subrange(a, a + t.len())]
                0 <= a && a + t.len() <= s.len() && s.subrange(a, a + t.len()) == t && (forall|j: int|
                    0 <= j < a ==> is_ws(#[trigger] s[j])) && (forall|j: int|
                    a + t.len() <= j < s.len() ==> is_ws(#[trigger] s[j]))
        }),
{
    let a = lemma_trim_start_shape(s);
    let u = s.skip(a);
    let e = lemma_trim_end_shape(u);
    let t = trim(s);
    assert(t == u.take(e));
    assert(s.subrange(a, a + e) =~= t);
    assert forall|j: int| a + e <= j < s.len() implies is_ws(#[trigger] s[j]) by {
        assert(s[j] == u[j - a]);
    }
    if e > 0 {
        assert(t[0] == s[a]);
        assert(t.last() == u[e - 1]);
    }
    assert(s.subrange(a, a + t.len()) == t);
}

/// Removing a single character keeps every other character, in order:
/// it is the text filtered by that character.
pub proof fn law_remove_char(s: Seq<char>, c: char)
    ensures
        remove_all(s, seq![c]) == s.filter(|x: char| x != c),
    decreases s.len(),
{
    let pred = |x: char| x != c;
    if s.len() > 0 {
        let t = s.drop_first();
        law_remove_char(t, c);
        assert(s =~= seq![s[0]] + t);
        Seq::filter_distributes_over_add(seq![s[0]], t, pred);
        reveal_with_fuel(Seq::filter, 2);
        assert(seq![s[0]].drop_last() =~= Seq::<char>::empty());
        if s[0] == c {
            assert(s.subrange(0, 1) =~= seq![c]);
            assert(s.skip(1) =~= t);
            assert(seq![s[0]].filter(pred) =~= Seq::<char>::empty());
            assert(s.filter(pred) =~= t.filter(pred));
        } else {
            assert(!occurs_at(s, seq![c], 0)) by {
                if occurs_at(s, seq![c], 0) {
                    assert(s.subrange(0, 1)[0] == s[0]);
                }
            }
            assert(seq![s[0]].filter(pred) =~= seq![s[0]]);
        }
    } else {
        reveal_with_fuel(Seq::filter, 1);
    }
}

/// How many words start in `s`, read just after a word character when
/// `in_word` holds: the non-whitespace characters that begin `s` or follow
/// whitespace.
pub open spec fn word_starts(s: Seq<char>, in_word: bool) -> nat
    decreases s.len(),
{
    if s.len() == 0 {
        0
    } else if is_ws(s[0]) {
        word_starts(s.drop_first(), false)
    } else {
        (if in_word {
            0nat
        } else {
            1nat
        }) + word_starts(s.drop_first(), true)
    }
}

proof fn lemma_words_from(s: Seq<char>, cur: Seq<char>)
    requires
        forall|j: int| 0 <= j < cur.len() ==> !is_ws(#[trigger] cur[j]),
    ensures
        ({
            let w = words_from(s, cur);
            &&& forall|i: int| 0 <= i < w.len() ==> (#[trigger] w[i]).len() > 0
            &&& forall|i: int, j: int| 0 <= i < w.len() && 0 <= j < w[i].len() ==> !is_ws(#[trigger] w[i][j])
            &&& w.flatten() == cur + s.filter(|c: char| !is_ws(c))
            &&& w.len() == (if cur.len() > 0 {
                1nat
            } else {
                0nat
            }) + word_starts(s, cur.len() > 0)
        }),
    decreases s.len(),
{
    let pred = |c: char| !is_ws(c);
    let done: Seq<Seq<char>> = if cur.len() > 0 {
        seq![cur]
    } else {
        seq![]
    };
    reveal_with_fuel(Seq::<Seq<char>>::flatten, 2);
    if cur.len() > 0 {
        assert(done.drop_first() =~= Seq::<Seq<char>>::empty());
        assert(done.flatten() =~= cur);
    } else {
        assert(done.flatten() =~= cur);
    }
    if s.len() == 0 {
        assert(s.filter(pred) =~= Seq::<char>::empty()) by {
            reveal_with_fuel(Seq::filter, 1);
        }
        assert(cur + s.filter(pred) =~= cur);
    } else {
        let rest = s.drop_first();
        assert(s =~= seq![s[0]] + rest);
        Seq::filter_distributes_over_add(seq![s[0]], rest, pred);
        assert(seq![s[0]].drop_last() =~= Seq::<char>::empty());
        reveal_with_fuel(Seq::filter, 2);
        if is_ws(s[0]) {
            lemma_words_from(rest, seq![]);
            let wr = words_from(rest, seq![]);
            let w = done + wr;
            assert(seq![s[0]].filter(pred) =~= Seq::<char>::empty());
            if cur.len() > 0 {
                assert(w.first() == cur);
                assert(w.drop_first() =~= wr);
            } else {
                assert(w =~= wr);
            }
            assert(wr.flatten() == Seq::<char>::empty() + rest.filter(pred));
            assert(Seq::<char>::empty() + rest.filter(pred) =~= rest.filter(pred));
            assert(s.filter(pred) =~= rest.filter(pred));
            assert forall|i: int| 0 <= i < w.len() implies (#[trigger] w[i]).len() > 0 by {
                if cur.len() > 0 && i > 0 {
                    assert(w[i] == wr[i - 1]);
                } else if cur.len() == 0 {
                    assert(w[i] == wr[i]);
                }
            }
            assert forall|i: int, j: int| 0 <= i < w.len() && 0 <= j < w[i].len() implies !is_ws(#[trigger] w[i][j]) by {
                if cur.len() > 0 && i > 0 {
                    assert(w[i] == wr[i - 1]);
                } else if cur.len() == 0 {
                    assert(w[i] == wr[i]);
                }
            }
        } else {
            let c2 = cur.push(s[0]);
            assert forall|j: int| 0 <= j < c2.len() implies !is_ws(#[trigger] c2[j]) by {
                if j < cur.len() {
                    assert(c2[j] == cur[j]);
                }
            }
            lemma_words_from(rest, c2);
            assert(seq![s[0]].filter(pred) =~= seq![s[0]]);
            assert(c2 + rest.filter(pred) =~= cur + (seq![s[0]] + rest.filter(pred)));
        }
    }
}

/// The words of a text are its non-whitespace characters, in order, cut
/// at whitespace: every word is non-empty and holds no whitespace, the
/// words joined together give the text without its whitespace, and there
/// is one word for each place where a non-whitespace character begins the
/// text or follows whitespace.
pub proof fn law_words(s: Seq<char>)
    ensures
        ({
            let w = words(s);
            &&& forall|i: int| 0 <= i < w.len() ==> (#[trigger] w[i]).len() > 0
            &&& forall|i: int, j: int| 0 <= i < w.len() && 0 <= j < w[i].len() ==> !is_ws(#[trigger] w[i][j])
            &&& w.flatten() == s.filter(|c: char| !is_ws(c))
            &&& w.len() == word_starts(s, false)
        }),
{
    lemma_words_from(s, seq![]);
    assert(Seq::<char>::empty() + s.filter(|c: char| !is_ws(c)) =~= s.filter(|c: char| !is_ws(c)));
}

} // verus!
