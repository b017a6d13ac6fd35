//! Character-level text handling shared by the parsers: whitespace, trimming,
//! line splitting, word splitting, and building `String`s from characters.

use vstd::prelude::*;

verus! {

/// Unicode `White_Space`: the characters for which `char::is_whitespace`
/// holds.
pub open spec fn is_ws(c: char) -> bool {
    ||| ('\u{9}' <= c && c <= '\u{d}')
    ||| c == ' '
    ||| c == '\u{85}'
    ||| c == '\u{a0}'
    ||| c == '\u{1680}'
    ||| ('\u{2000}' <= c && c <= '\u{200a}')
    ||| c == '\u{2028}'
    ||| c == '\u{2029}'
    ||| c == '\u{202f}'
    ||| c == '\u{205f}'
    ||| c == '\u{3000}'
}

/// Whether `c` is Unicode whitespace.
pub fn is_whitespace(c: char) -> (b: bool)
    ensures
        b == is_ws(c),
{
    ('\u{9}' <= c && c <= '\u{d}') || c == ' ' || c == '\u{85}' || c == '\u{a0}' || c
        == '\u{1680}' || ('\u{2000}' <= c && c <= '\u{200a}') || c == '\u{2028}' || c
        == '\u{2029}' || c == '\u{202f}' || c == '\u{205f}' || c == '\u{3000}'
}

/// `s` without its leading whitespace.
pub open spec fn trim_start_spec(s: Seq<char>) -> Seq<char>
    decreases s.len(),
{
    if s.len() > 0 && is_ws(s[0]) {
        trim_start_spec(s.drop_first())
    } else {
        s
    }
}

/// `s` without its trailing whitespace.
pub open spec fn trim_end_spec(s: Seq<char>) -> Seq<char>
    decreases s.len(),
{
    if s.len() > 0 && is_ws(s.last()) {
        trim_end_spec(s.drop_last())
    } else {
        s
    }
}

/// `s` without leading and trailing whitespace (`str::trim`).
pub open spec fn trim_spec(s: Seq<char>) -> Seq<char> {
    trim_end_spec(trim_start_spec(s))
}

/// Skipping a prefix made of whitespace does not change the trimmed start.
pub proof fn lemma_trim_start_skip(s: Seq<char>, k: int)
    requires
        0 <= k <= s.len(),
        forall|j: int| 0 <= j < k ==> is_ws(#[trigger] s[j]),
    ensures
        trim_start_spec(s) == trim_start_spec(s.skip(k)),
    decreases k,
{
    if k == 0 {
        assert(s.skip(0) =~= s);
    } else {
        assert(is_ws(s[0]));
        let t = s.drop_first();
        assert forall|j: int| 0 <= j < k - 1 implies is_ws(#[trigger] t[j]) by {
            assert(t[j] == s[j + 1]);
        }
        lemma_trim_start_skip(t, k - 1);
        assert(t.skip(k - 1) =~= s.skip(k));
    }
}

/// Dropping a suffix made of whitespace does not change the trimmed end.
pub proof fn lemma_trim_end_take(s: Seq<char>, k: int)
    requires
        0 <= k <= s.len(),
        forall|j: int| k <= j < s.len() ==> is_ws(#[trigger] s[j]),
    ensures
        trim_end_spec(s) == trim_end_spec(s.take(k)),
    decreases s.len() - k,
{
    if k == s.len() {
        assert(s.take(k) =~= s);
    } else {
        assert(is_ws(s[s.len() - 1]));
        let t = s.drop_last();
        lemma_trim_end_take(t, k);
        assert(t.take(k) =~= s.take(k));
    }
}

/// `trim_start_spec(s)` is `s` without a prefix made of whitespace; the
/// returned length is that of the prefix.
pub proof fn lemma_trim_start_split(s: Seq<char>) -> (a: int)
    ensures
        0 <= a <= s.len(),
        trim_start_spec(s) == s.skip(a),
        forall|j: int| 0 <= j < a ==> is_ws(#[trigger] s[j]),
    decreases s.len(),
{
    if s.len() > 0 && is_ws(s[0]) {
        let t = s.drop_first();
        let a0 = lemma_trim_start_split(t);
        assert(t.skip(a0) =~= s.skip(a0 + 1));
        assert forall|j: int| 0 <= j < a0 + 1 implies is_ws(#[trigger] s[j]) by {
            if j > 0 {
                assert(s[j] == t[j - 1]);
            }
        }
        a0 + 1
    } else {
        assert(s.skip(0) =~= s);
        0
    }
}

/// `trim_end_spec(s)` is `s` without a suffix made of whitespace; the
/// returned length is that of what is kept.
pub proof fn lemma_trim_end_split(s: Seq<char>) -> (b: int)
    ensures
        0 <= b <= s.len(),
        trim_end_spec(s) == s.take(b),
        forall|j: int| b <= j < s.len() ==> is_ws(#[trigger] s[j]),
    decreases s.len(),
{
    if s.len() > 0 && is_ws(s.last()) {
        let t = s.drop_last();
        let b0 = lemma_trim_end_split(t);
        assert(t.take(b0) =~= s.take(b0));
        assert forall|j: int| b0 <= j < s.len() implies is_ws(#[trigger] s[j]) by {
            if j < s.len() - 1 {
                assert(s[j] == t[j]);
            }
        }
        b0
    } else {
        assert(s.take(s.len() as int) =~= s);
        s.len() as int
    }
}

/// `trim_spec(s)` is the part of `s` between a whitespace prefix and a
/// whitespace suffix; when some character of `s` is not whitespace it is
/// not empty and neither starts nor ends with whitespace, and otherwise it
/// is empty.
pub proof fn lemma_trim_split(s: Seq<char>) -> (r: (int, int))
    ensures
        0 <= r.0 <= r.1 <= s.len(),
        trim_spec(s) == s.subrange(r.0, r.1),
        forall|j: int| 0 <= j < r.0 ==> is_ws(#[trigger] s[j]),
        forall|j: int| r.1 <= j < s.len() ==> is_ws(#[trigger] s[j]),
        r.0 < r.1 ==> !is_ws(s[r.0]) && !is_ws(s[r.1 - 1]),
        (exists|k: int| 0 <= k < s.len() && !is_ws(s[k])) <==> r.0 < r.1,
{
    let a = lemma_trim_start_split(s);
    let t = s.skip(a);
    let b = lemma_trim_end_split(t);
    assert(t.take(b) =~= s.subrange(a, a + b));
    assert forall|j: int| a + b <= j < s.len() implies is_ws(#[trigger] s[j]) by {
        assert(s[j] == t[j - a]);
    }
    if a < a + b {
        // the first kept character is not whitespace, else trimming would go on
        if is_ws(s[a]) {
            assert(t[0] == s[a]);
            assert(trim_start_spec(t) == trim_start_spec(t.drop_first()));
            lemma_trim_start_idem(s, a);
        }
        assert(s.subrange(a, a + b).last() == s[a + b - 1]);
        lemma_trim_end_last(t, b);
    }
    if exists|k: int| 0 <= k < s.len() && !is_ws(s[k]) {
        let k = choose|k: int| 0 <= k < s.len() && !is_ws(s[k]);
        if a >= a + b {
            assert(k < a || k >= a + b);
        }
    }
    (a, a + b)
}

proof fn lemma_trim_start_idem(s: Seq<char>, a: int)
    requires
        0 <= a < s.len(),
        trim_start_spec(s) == s.skip(a),
    ensures
        !is_ws(s[a]),
    decreases s.len(),
{
    if s.len() > 0 && is_ws(s[0]) {
        let t = s.drop_first();
        if a == 0 {
            lemma_trim_start_shorter(t);
            assert(trim_start_spec(s) == trim_start_spec(t));
            assert(s.skip(0).len() == s.len());
        } else {
            assert(t.skip(a - 1) =~= s.skip(a));
            assert(t[a - 1] == s[a]);
            lemma_trim_start_idem(t, a - 1);
        }
    } else {
        assert(trim_start_spec(s) == s);
        if a > 0 {
            assert(s.skip(a).len() < s.len());
        }
    }
}

proof fn lemma_trim_start_shorter(s: Seq<char>)
    ensures
        trim_start_spec(s).len() <= s.len(),
    decreases s.len(),
{
    if s.len() > 0 && is_ws(s[0]) {
        lemma_trim_start_shorter(s.drop_first());
    }
}

proof fn lemma_trim_end_last(t: Seq<char>, b: int)
    requires
        0 < b <= t.len(),
        trim_end_spec(t) == t.take(b),
    ensures
        !is_ws(t[b - 1]),
    decreases t.len(),
{
    if t.len() > 0 && is_ws(t.last()) {
        let u = t.drop_last();
        if b == t.len() {
            lemma_trim_end_shorter(u);
            assert(trim_end_spec(t) == trim_end_spec(u));
            assert(t.take(b).len() == t.len());
        } else {
            assert(u.take(b) =~= t.take(b));
            assert(u[b - 1] == t[b - 1]);
            lemma_trim_end_last(u, b);
        }
    } else {
        assert(trim_end_spec(t) == t);
        if b < t.len() {
            assert(t.take(b).len() < t.len());
        }
        assert(t[b - 1] == t.last());
    }
}

proof fn lemma_trim_end_shorter(s: Seq<char>)
    ensures
        trim_end_spec(s).len() <= s.len(),
    decreases s.len(),
{
    if s.len() > 0 && is_ws(s.last()) {
        lemma_trim_end_shorter(s.drop_last());
    }
}

/// The bounds of `v[lo..hi]` without its leading whitespace.
pub fn trim_start_range(v: &Vec<char>, lo: usize, hi: usize) -> (r: usize)
    requires
        lo <= hi <= v.len(),
    ensures
        lo <= r <= hi,
        v@.subrange(r as int, hi as int) == trim_start_spec(v@.subrange(lo as int, hi as int)),
{
    let mut i = lo;
    while i < hi && is_whitespace(v[i])
        invariant
            lo <= i <= hi <= v.len(),
            forall|j: int| lo <= j < i ==> is_ws(#[trigger] v@[j]),
        decreases hi - i,
    {
        i = i + 1;
    }
    proof {
        let s = v@.subrange(lo as int, hi as int);
        assert forall|j: int| 0 <= j < i - lo implies is_ws(#[trigger] s[j]) by {
            assert(s[j] == v@[lo + j]);
        }
        lemma_trim_start_skip(s, i - lo);
        assert(s.skip(i - lo) =~= v@.subrange(i as int, hi as int));
        let t = v@.subrange(i as int, hi as int);
        if i < hi {
            assert(t[0] == v@[i as int]);
        }
    }
    i
}

/// The bounds of `v[lo..hi]` without leading and trailing whitespace.
pub fn trim_range(v: &Vec<char>, lo: usize, hi: usize) -> (r: (usize, usize))
    requires
        lo <= hi <= v.len(),
    ensures
        lo <= r.0 <= r.1 <= hi,
        v@.subrange(r.0 as int, r.1 as int) == trim_spec(v@.subrange(lo as int, hi as int)),
{
    let a = trim_start_range(v, lo, hi);
    let mut b = hi;
    while b > a && is_whitespace(v[b - 1])
        invariant
            lo <= a <= b <= hi <= v.len(),
            forall|j: int| b <= j < hi ==> is_ws(#[trigger] v@[j]),
        decreases b - a,
    {
        b = b - 1;
    }
    proof {
        let s = v@.subrange(a as int, hi as int);
        assert forall|j: int| b - a <= j < s.len() implies is_ws(#[trigger] s[j]) by {
            assert(s[j] == v@[a + j]);
        }
        lemma_trim_end_take(s, b - a);
        assert(s.take(b - a) =~= v@.subrange(a as int, b as int));
        let t = v@.subrange(a as int, b as int);
        if b > a {
            assert(t.last() == v@[b - 1]);
        }
    }
    (a, b)
}

/// The pieces of `s` between newline characters, in order; a text with `n`
/// newlines has `n + 1` pieces.
pub open spec fn split_nl(s: Seq<char>) -> Seq<Seq<char>>
    decreases s.len(),
{
    if s.len() == 0 {
        seq![Seq::<char>::empty()]
    } else {
        let rest = split_nl(s.drop_last());
        if s.last() == '\n' {
            rest.push(Seq::<char>::empty())
        } else {
            rest.update(rest.len() - 1, rest.last().push(s.last()))
        }
    }
}

/// `split_nl` never yields an empty list.
pub proof fn lemma_split_nl_nonempty(s: Seq<char>)
    ensures
        split_nl(s).len() >= 1,
    decreases s.len(),
{
    if s.len() > 0 {
        lemma_split_nl_nonempty(s.drop_last());
    }
}

/// A text without a newline is a single line.
pub proof fn lemma_split_nl_one_line(s: Seq<char>)
    requires
        forall|j: int| 0 <= j < s.len() ==> #[trigger] s[j] != '\n',
    ensures
        split_nl(s) == seq![s],
    decreases s.len(),
{
    if s.len() == 0 {
        assert(s =~= Seq::<char>::empty());
        assert(split_nl(s) =~= seq![s]);
    } else {
        let t = s.drop_last();
        assert forall|j: int| 0 <= j < t.len() implies #[trigger] t[j] != '\n' by {
            assert(t[j] == s[j]);
        }
        lemma_split_nl_one_line(t);
        assert(s.last() != '\n');
        let rest = split_nl(t);
        assert(rest.last() == t);
        assert(s.last() == s[s.len() - 1]);
        assert(t.push(s.last()) =~= s);
        assert(split_nl(s) =~= seq![s]);
    }
}

/// Words of `s` seen so far, and the word being read at the end of `s`.
pub open spec fn words_acc(s: Seq<char>) -> (Seq<Seq<char>>, Seq<char>)
    decreases s.len(),
{
    if s.len() == 0 {
        (Seq::<Seq<char>>::empty(), Seq::<char>::empty())
    } else {
        let (ws, cur) = words_acc(s.drop_last());
        let c = s.last();
        if is_ws(c) {
            if cur.len() > 0 {
                (ws.push(cur), Seq::<char>::empty())
            } else {
                (ws, Seq::<char>::empty())
            }
        } else {
            (ws, cur.push(c))
        }
    }
}

/// The maximal runs of non-whitespace characters of `s`, in order
/// (`str::split_whitespace`).
pub open spec fn words(s: Seq<char>) -> Seq<Seq<char>> {
    let (ws, cur) = words_acc(s);
    if cur.len() > 0 {
        ws.push(cur)
    } else {
        ws
    }
}

/// A non-empty text without whitespace is one word.
pub proof fn lemma_words_one_word(s: Seq<char>)
    requires
        s.len() > 0,
        forall|j: int| 0 <= j < s.len() ==> !is_ws(#[trigger] s[j]),
    ensures
        words(s) == seq![s],
{
    lemma_words_acc_no_ws(s);
    assert(Seq::<Seq<char>>::empty().push(s) =~= seq![s]);
}

proof fn lemma_words_acc_no_ws(s: Seq<char>)
    requires
        forall|j: int| 0 <= j < s.len() ==> !is_ws(#[trigger] s[j]),
    ensures
        words_acc(s) == (Seq::<Seq<char>>::empty(), s),
    decreases s.len(),
{
    if s.len() == 0 {
        assert(s =~= Seq::<char>::empty());
    } else {
        let t = s.drop_last();
        assert forall|j: int| 0 <= j < t.len() implies !is_ws(#[trigger] t[j]) by {
            assert(t[j] == s[j]);
        }
        lemma_words_acc_no_ws(t);
        assert(!is_ws(s[s.len() - 1]));
        assert(t.push(s.last()) =~= s);
    }
}

/// The bounds in `v` of the words of `v[lo..hi]`.
pub fn word_ranges(v: &Vec<char>, lo: usize, hi: usize) -> (r: Vec<(usize, usize)>)
    requires
        lo <= hi <= v.len(),
    ensures
        r.len() == words(v@.subrange(lo as int, hi as int)).len(),
        forall|i: int|
            #![trigger r[i]]
            0 <= i < r.len() ==> r[i].0 <= r[i].1 <= v.len() && v@.subrange(
                r[i].0 as int,
                r[i].1 as int,
            ) == words(v@.subrange(lo as int, hi as int))[i],
{
    let mut r: Vec<(usize, usize)> = Vec::new();
    let mut start = lo;
    let mut k = lo;
    while k < hi
        invariant
            lo <= start <= k <= hi <= v.len(),
            r.len() == words_acc(v@.subrange(lo as int, k as int)).0.len(),
            forall|i: int|
                #![trigger r[i]]
                0 <= i < r.len() ==> r[i].0 <= r[i].1 <= v.len() && v@.subrange(
                    r[i].0 as int,
                    r[i].1 as int,
                ) == words_acc(v@.subrange(lo as int, k as int)).0[i],
            words_acc(v@.subrange(lo as int, k as int)).1 == v@.subrange(start as int, k as int),
        decreases hi - k,
    {
        let ghost prev = v@.subrange(lo as int, k as int);
        let ghost next = v@.subrange(lo as int, k + 1);
        assert(next.drop_last() =~= prev);
        assert(next.last() == v@[k as int]);
        let ghost old_r = r@;
        let ghost wp = words_acc(prev);
        if is_whitespace(v[k]) {
            if start < k {
                r.push((start, k));
                assert(words_acc(next).0 == wp.0.push(wp.1));
            } else {
                assert(words_acc(next).0 == wp.0);
            }
            start = k + 1;
            assert(v@.subrange(start as int, k + 1) =~= Seq::<char>::empty());
        } else {
            assert(words_acc(next).0 == wp.0);
            assert(v@.subrange(start as int, k + 1) =~= v@.subrange(start as int, k as int).push(
                v@[k as int],
            ));
        }
        assert forall|i: int| 0 <= i < r.len() implies r[i].0 <= r[i].1 <= v.len() && v@.subrange(
            r[i].0 as int,
            r[i].1 as int,
        ) == words_acc(next).0[i] by {
            if i < old_r.len() {
                assert(r[i] == old_r[i]);
                assert(words_acc(next).0[i] == wp.0[i]);
            }
        }
        k = k + 1;
    }
    let ghost whole = v@.subrange(lo as int, hi as int);
    let ghost wa = words_acc(whole);
    let ghost old_r = r@;
    if start < hi {
        r.push((start, hi));
        assert(words(whole) == wa.0.push(wa.1));
    } else {
        assert(words(whole) == wa.0);
    }
    assert forall|i: int| 0 <= i < r.len() implies r[i].0 <= r[i].1 <= v.len() && v@.subrange(
        r[i].0 as int,
        r[i].1 as int,
    ) == words(whole)[i] by {
        if i < old_r.len() {
            assert(r[i] == old_r[i]);
            assert(words(whole)[i] == wa.0[i]);
        }
    }
    r
}

/// Appends `c` to `s`.
///
/// Trusted: calls `String::push`, which std documents as appending the
/// character to the end of the string.
#[verifier::external_body]
pub(crate) fn push_char(s: &mut String, c: char)
    ensures
        final(s)@ == old(s)@.push(c),
{
    s.push(c);
}

/// Appends the characters `v[lo..hi]` to `s`.
pub fn push_range(s: &mut String, v: &Vec<char>, lo: usize, hi: usize)
    requires
        lo <= hi <= v.len(),
    ensures
        final(s)@ == old(s)@ + v@.subrange(lo as int, hi as int),
{
    let mut k = lo;
    while k < hi
        invariant
            lo <= k <= hi <= v.len(),
            s@ == old(s)@ + v@.subrange(lo as int, k as int),
        decreases hi - k,
    {
        push_char(s, v[k]);
        assert(v@.subrange(lo as int, k + 1) =~= v@.subrange(lo as int, k as int).push(
            v@[k as int],
        ));
        k = k + 1;
    }
}

/// A new `String` holding the characters `v[lo..hi]`.
pub fn string_of_range(v: &Vec<char>, lo: usize, hi: usize) -> (s: String)
    requires
        lo <= hi <= v.len(),
    ensures
        s@ == v@.subrange(lo as int, hi as int),
{
    let mut s = String::new();
    push_range(&mut s, v, lo, hi);
    assert(Seq::<char>::empty() + v@.subrange(lo as int, hi as int) =~= v@.subrange(
        lo as int,
        hi as int,
    ));
    s
}

/// The characters of `s`, in order.
pub fn chars_of(s: &str) -> (v: Vec<char>)
    ensures
        v@ == s@,
{
    let mut v: Vec<char> = Vec::new();
    for c in it: s.chars()
        invariant
            v@ == it.seq().take(it.index() as int),
            it.seq() == s@,
    {
        v.push(c);
    }
    v
}

/// The character of a decimal digit.
pub open spec fn digit_spec(d: int) -> char {
    if d == 0 {
        '0'
    } else if d == 1 {
        '1'
    } else if d == 2 {
        '2'
    } else if d == 3 {
        '3'
    } else if d == 4 {
        '4'
    } else if d == 5 {
        '5'
    } else if d == 6 {
        '6'
    } else if d == 7 {
        '7'
    } else if d == 8 {
        '8'
    } else {
        '9'
    }
}

/// The decimal notation of `n`, without leading zeros.
pub open spec fn decimal(n: nat) -> Seq<char>
    decreases n,
{
    if n < 10 {
        seq![digit_spec(n as int)]
    } else {
        decimal(n / 10).push(digit_spec((n % 10) as int))
    }
}

fn digit_char(d: u32) -> (c: char)
    requires
        d < 10,
    ensures
        c == digit_spec(d as int),
{
    if d == 0 {
        '0'
    } else if d == 1 {
        '1'
    } else if d == 2 {
        '2'
    } else if d == 3 {
        '3'
    } else if d == 4 {
        '4'
    } else if d == 5 {
        '5'
    } else if d == 6 {
        '6'
    } else if d == 7 {
        '7'
    } else if d == 8 {
        '8'
    } else {
        '9'
    }
}

/// Appends the decimal notation of `n` to `s`.
pub fn push_decimal(s: &mut String, n: u32)
    ensures
        final(s)@ == old(s)@ + decimal(n as nat),
    decreases n,
{
    if n >= 10 {
        push_decimal(s, n / 10);
        push_char(s, digit_char(n % 10));
        assert(old(s)@ + decimal((n / 10) as nat) + seq![digit_spec((n % 10) as int)] =~= old(
            s,
        )@ + decimal(n as nat));
    } else {
        push_char(s, digit_char(n));
        assert(old(s)@.push(digit_spec(n as int)) =~= old(s)@ + decimal(n as nat));
    }
}

/// Appends the characters of `t` to `s`.
pub fn push_str(s: &mut String, t: &str)
    ensures
        final(s)@ == old(s)@ + t@,
{
    s.append(t);
}

} // verus!
