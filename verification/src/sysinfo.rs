//! Host introspection for the Add Project form: the SSH host aliases named in
//! an `~/.ssh/config` text, and the WSL distributions listed by `wsl -l --quiet`.
//! Reading the file and running `wsl` are left to the caller; these functions
//! compute on what was read.

use vstd::prelude::*;
use vstd::utf8::{decode_utf8, valid_utf8};
use crate::text::{
    chars_of, is_ws, split_nl, trim_end_spec, string_of_range, trim_range, trim_spec, trim_start_range, trim_start_spec,
    word_ranges, words, lemma_split_nl_one_line, lemma_trim_split, lemma_words_one_word,
};

verus! {

// ---- SSH config ------------------------------------------------------------

/// A line that opens a `Host` block: `host` in any ASCII case, then a space
/// or a tab.
pub open spec fn is_host_line(line: Seq<char>) -> bool {
    &&& line.len() >= 5
    &&& (line[0] == 'h' || line[0] == 'H')
    &&& (line[1] == 'o' || line[1] == 'O')
    &&& (line[2] == 's' || line[2] == 'S')
    &&& (line[3] == 't' || line[3] == 'T')
    &&& (line[4] == ' ' || line[4] == '\t')
}

/// An alias that names one host: it holds no `*` and no `?`, and does not
/// start with `!`.
pub open spec fn is_plain_alias(a: Seq<char>) -> bool {
    &&& !a.contains('*')
    &&& !a.contains('?')
    &&& !(a.len() > 0 && a[0] == '!')
}

/// The words after the `Host` keyword of one line of the config, or nothing
/// when the trimmed line is empty, a comment, or not a `Host` line.
pub open spec fn line_aliases(raw_line: Seq<char>) -> Seq<Seq<char>> {
    let line = trim_spec(raw_line);
    if line.len() == 0 || line[0] == '#' || !is_host_line(line) {
        Seq::<Seq<char>>::empty()
    } else {
        words(trim_start_spec(line.skip(4)))
    }
}

/// `out` extended, in order, by the candidates that are plain aliases and
/// not yet listed.
pub open spec fn add_aliases(out: Seq<Seq<char>>, cands: Seq<Seq<char>>) -> Seq<Seq<char>>
    decreases cands.len(),
{
    if cands.len() == 0 {
        out
    } else {
        let prev = add_aliases(out, cands.drop_last());
        let a = cands.last();
        if is_plain_alias(a) && !prev.contains(a) {
            prev.push(a)
        } else {
            prev
        }
    }
}

/// The aliases collected from `lines`, first occurrence first.
pub open spec fn aliases_of_lines(lines: Seq<Seq<char>>) -> Seq<Seq<char>>
    decreases lines.len(),
{
    if lines.len() == 0 {
        Seq::<Seq<char>>::empty()
    } else {
        add_aliases(aliases_of_lines(lines.drop_last()), line_aliases(lines.last()))
    }
}

/// The host aliases that an SSH config text names, in order of first
/// appearance, without wildcard patterns, negations or repeats.
pub open spec fn ssh_config_aliases(config: Seq<char>) -> Seq<Seq<char>> {
    aliases_of_lines(split_nl(config))
}

/// A list of aliases without repeats, each of them a plain alias.
pub open spec fn clean_aliases(out: Seq<Seq<char>>) -> bool {
    &&& forall|i: int| 0 <= i < out.len() ==> is_plain_alias(#[trigger] out[i])
    &&& forall|i: int, j: int|
        0 <= i < out.len() && 0 <= j < out.len() && i != j ==> #[trigger] out[i] != #[trigger] out[j]
}

proof fn lemma_add_aliases_clean(out: Seq<Seq<char>>, cands: Seq<Seq<char>>)
    requires
        clean_aliases(out),
    ensures
        clean_aliases(add_aliases(out, cands)),
        forall|i: int| 0 <= i < out.len() ==> add_aliases(out, cands).contains(#[trigger] out[i]),
    decreases cands.len(),
{
    if cands.len() > 0 {
        lemma_add_aliases_clean(out, cands.drop_last());
        let prev = add_aliases(out, cands.drop_last());
        let a = cands.last();
        if is_plain_alias(a) && !prev.contains(a) {
            let next = prev.push(a);
            assert forall|i: int, j: int|
                0 <= i < next.len() && 0 <= j < next.len() && i != j implies #[trigger] next[i]
                != #[trigger] next[j] by {
                if i < prev.len() && j < prev.len() {
                } else if i < prev.len() {
                    assert(prev.contains(prev[i]));
                } else {
                    assert(prev.contains(prev[j]));
                }
            }
            assert forall|i: int| 0 <= i < out.len() implies next.contains(#[trigger] out[i]) by {
                assert(prev.contains(out[i]));
                let k = choose|k: int| 0 <= k < prev.len() && prev[k] == out[i];
                assert(next[k] == out[i]);
            }
        }
    }
}

proof fn lemma_aliases_of_lines_clean(lines: Seq<Seq<char>>)
    ensures
        clean_aliases(aliases_of_lines(lines)),
    decreases lines.len(),
{
    if lines.len() > 0 {
        lemma_aliases_of_lines_clean(lines.drop_last());
        lemma_add_aliases_clean(aliases_of_lines(lines.drop_last()), line_aliases(lines.last()));
    }
}

/// The aliases read from an SSH config never repeat, and none of them is a
/// wildcard pattern or a negation.
pub proof fn law_ssh_aliases_clean(config: Seq<char>)
    ensures
        clean_aliases(ssh_config_aliases(config)),
{
    lemma_aliases_of_lines_clean(split_nl(config));
}

proof fn lemma_add_aliases_members(out: Seq<Seq<char>>, cands: Seq<Seq<char>>)
    ensures
        forall|i: int|
            0 <= i < cands.len() && is_plain_alias(#[trigger] cands[i]) ==> add_aliases(
                out,
                cands,
            ).contains(cands[i]),
        forall|x: Seq<char>| #[trigger]
            add_aliases(out, cands).contains(x) ==> out.contains(x) || cands.contains(x),
        forall|x: Seq<char>| out.contains(x) ==> #[trigger] add_aliases(out, cands).contains(x),
    decreases cands.len(),
{
    if cands.len() > 0 {
        let init = cands.drop_last();
        lemma_add_aliases_members(out, init);
        let prev = add_aliases(out, init);
        let a = cands.last();
        let next = add_aliases(out, cands);
        assert forall|x: Seq<char>| prev.contains(x) implies next.contains(x) by {
            let k = choose|k: int| 0 <= k < prev.len() && prev[k] == x;
            if is_plain_alias(a) && !prev.contains(a) {
                assert(next[k] == x);
            }
        }
        assert forall|i: int|
            0 <= i < cands.len() && is_plain_alias(#[trigger] cands[i]) implies next.contains(
            cands[i],
        ) by {
            if i < init.len() {
                assert(init[i] == cands[i]);
                assert(prev.contains(init[i]));
            } else if !prev.contains(a) {
                assert(next[prev.len() as int] == a);
            }
        }
        assert forall|x: Seq<char>| #[trigger] next.contains(x) implies out.contains(x)
            || cands.contains(x) by {
            if prev.contains(x) {
                if init.contains(x) {
                    let k = choose|k: int| 0 <= k < init.len() && init[k] == x;
                    assert(cands[k] == x);
                }
            } else {
                let k = choose|k: int| 0 <= k < next.len() && next[k] == x;
                assert(x == a);
                assert(cands[cands.len() - 1] == x);
            }
        }
    }
}

proof fn lemma_aliases_of_lines_members(lines: Seq<Seq<char>>)
    ensures
        forall|l: int, i: int|
            0 <= l < lines.len() && 0 <= i < line_aliases(lines[l]).len() && is_plain_alias(
                #[trigger] line_aliases(lines[l])[i],
            ) ==> aliases_of_lines(lines).contains(line_aliases(lines[l])[i]),
        forall|x: Seq<char>| #[trigger]
            aliases_of_lines(lines).contains(x) ==> exists|l: int|
                0 <= l < lines.len() && #[trigger] line_aliases(lines[l]).contains(x),
    decreases lines.len(),
{
    if lines.len() > 0 {
        let init = lines.drop_last();
        lemma_aliases_of_lines_members(init);
        let prev = aliases_of_lines(init);
        let last = line_aliases(lines.last());
        lemma_add_aliases_members(prev, last);
        let all = aliases_of_lines(lines);
        assert forall|l: int, i: int|
            0 <= l < lines.len() && 0 <= i < line_aliases(lines[l]).len() && is_plain_alias(
                #[trigger] line_aliases(lines[l])[i],
            ) implies all.contains(line_aliases(lines[l])[i]) by {
            if l < init.len() {
                assert(init[l] == lines[l]);
                assert(prev.contains(line_aliases(init[l])[i]));
            } else {
                assert(lines[l] == lines.last());
            }
        }
        assert forall|x: Seq<char>| #[trigger] all.contains(x) implies exists|l: int|
            0 <= l < lines.len() && #[trigger] line_aliases(lines[l]).contains(x) by {
            if prev.contains(x) {
                let l = choose|l: int| 0 <= l < init.len() && #[trigger] line_aliases(init[l]).contains(x);
                assert(init[l] == lines[l]);
            } else {
                assert(last.contains(x));
                assert(lines[lines.len() - 1] == lines.last());
            }
        }
    }
}

/// The aliases read from an SSH config are exactly the plain aliases named
/// on its `Host` lines: each such alias is listed, and nothing else is.
pub proof fn law_ssh_aliases_complete(config: Seq<char>)
    ensures
        forall|l: int, i: int|
            0 <= l < split_nl(config).len() && 0 <= i < line_aliases(split_nl(config)[l]).len()
                && is_plain_alias(#[trigger] line_aliases(split_nl(config)[l])[i])
                ==> ssh_config_aliases(config).contains(line_aliases(split_nl(config)[l])[i]),
        forall|x: Seq<char>| #[trigger]
            ssh_config_aliases(config).contains(x) ==> is_plain_alias(x) && exists|l: int|
                0 <= l < split_nl(config).len() && #[trigger] line_aliases(
                    split_nl(config)[l],
                ).contains(x),
{
    lemma_aliases_of_lines_members(split_nl(config));
    lemma_aliases_of_lines_clean(split_nl(config));
    let r = ssh_config_aliases(config);
    assert forall|x: Seq<char>| #[trigger] r.contains(x) implies is_plain_alias(x) by {
        let k = choose|k: int| 0 <= k < r.len() && r[k] == x;
    }
}

/// A config made of one `Host` line that names one host lists that host
/// exactly when the name holds no `*` and no `?` and does not start with
/// `!`; any other name (with dots, digits, dashes, ...) is listed as it is.
pub proof fn law_single_host_line(name: Seq<char>)
    requires
        name.len() > 0,
        forall|j: int| 0 <= j < name.len() ==> !is_ws(#[trigger] name[j]),
    ensures
        ssh_config_aliases("Host "@ + name) == if (forall|j: int|
            0 <= j < name.len() ==> #[trigger] name[j] != '*' && name[j] != '?') && name[0] != '!' {
            seq![name]
        } else {
            Seq::<Seq<char>>::empty()
        },
{
    reveal_strlit("Host ");
    let line = "Host "@ + name;
    assert(line.len() == name.len() + 5);
    assert forall|j: int| 0 <= j < line.len() implies #[trigger] line[j] != '\n' by {
        if j >= 5 {
            assert(line[j] == name[j - 5]);
            assert(!is_ws(name[j - 5]));
        }
    }
    lemma_split_nl_one_line(line);
    let (a, b) = lemma_trim_split(line);
    assert(!is_ws(line[0]));
    assert(line[line.len() - 1] == name[name.len() - 1]);
    assert(!is_ws(line[line.len() - 1]));
    assert(a == 0);
    assert(b == line.len());
    assert(line.subrange(0, line.len() as int) =~= line);
    assert(trim_spec(line) == line);
    assert(is_host_line(line));
    let rest = line.skip(4);
    assert(rest.drop_first() =~= name);
    assert(is_ws(rest[0]));
    assert(trim_start_spec(rest) == trim_start_spec(name));
    assert(trim_start_spec(name) == name);
    lemma_words_one_word(name);
    assert(line_aliases(line) == seq![name]);
    let lines = seq![line];
    assert(lines.drop_last() =~= Seq::<Seq<char>>::empty());
    assert(aliases_of_lines(lines.drop_last()) == Seq::<Seq<char>>::empty());
    assert(lines.last() == line);
    assert(aliases_of_lines(lines) == add_aliases(Seq::<Seq<char>>::empty(), seq![name]));
    let one = seq![name];
    assert(one.drop_last() =~= Seq::<Seq<char>>::empty());
    assert(one.last() == name);
    assert(add_aliases(Seq::<Seq<char>>::empty(), one.drop_last()) == Seq::<Seq<char>>::empty());
    assert(!Seq::<Seq<char>>::empty().contains(name));
    let chars_ok = (forall|j: int|
        0 <= j < name.len() ==> #[trigger] name[j] != '*' && name[j] != '?') && name[0] != '!';
    if chars_ok {
        assert(!name.contains('*'));
        assert(!name.contains('?'));
        assert(is_plain_alias(name));
        assert(Seq::<Seq<char>>::empty().push(name) =~= seq![name]);
    } else {
        if name[0] != '!' {
            let j = choose|j: int| 0 <= j < name.len() && !(name[j] != '*' && name[j] != '?');
            assert(name.contains(name[j]));
        }
        assert(!is_plain_alias(name));
    }
}

/// Only `*`, `?` and a leading `!` keep a word after `Host` out of the list:
/// every word after the keyword on a `Host` line that holds neither `*` nor
/// `?` and does not start with `!` is listed, and every listed alias is
/// such a word.
pub proof fn law_ssh_alias_filter(config: Seq<char>)
    ensures
        forall|l: int, i: int|
            0 <= l < split_nl(config).len() && 0 <= i < line_aliases(split_nl(config)[l]).len()
                && (forall|k: int|
                0 <= k < line_aliases(split_nl(config)[l])[i].len() ==> line_aliases(
                    split_nl(config)[l],
                )[i][k] != '*' && line_aliases(split_nl(config)[l])[i][k] != '?') && !(
            line_aliases(split_nl(config)[l])[i].len() > 0 && line_aliases(
                split_nl(config)[l],
            )[i][0] == '!') ==> ssh_config_aliases(config).contains(
                #[trigger] line_aliases(split_nl(config)[l])[i],
            ),
        forall|i: int, k: int|
            0 <= i < ssh_config_aliases(config).len() && 0 <= k < ssh_config_aliases(config)[i].len()
                ==> #[trigger] ssh_config_aliases(config)[i][k] != '*'
                && ssh_config_aliases(config)[i][k] != '?',
        forall|i: int|
            0 <= i < ssh_config_aliases(config).len() && #[trigger] ssh_config_aliases(config)[i].len()
                > 0 ==> ssh_config_aliases(config)[i][0] != '!',
{
    law_ssh_aliases_complete(config);
    law_ssh_aliases_clean(config);
    let r = ssh_config_aliases(config);
    assert forall|l: int, i: int|
        0 <= l < split_nl(config).len() && 0 <= i < line_aliases(split_nl(config)[l]).len() && (
        forall|k: int|
            0 <= k < line_aliases(split_nl(config)[l])[i].len() ==> line_aliases(
                split_nl(config)[l],
            )[i][k] != '*' && line_aliases(split_nl(config)[l])[i][k] != '?') && !(line_aliases(
            split_nl(config)[l],
        )[i].len() > 0 && line_aliases(split_nl(config)[l])[i][0] == '!') implies r.contains(
        #[trigger] line_aliases(split_nl(config)[l])[i],
    ) by {
        let w = line_aliases(split_nl(config)[l])[i];
        assert(!w.contains('*') && !w.contains('?'));
        assert(is_plain_alias(w));
    }
    assert forall|i: int, k: int|
        0 <= i < r.len() && 0 <= k < r[i].len() implies #[trigger] r[i][k] != '*' && r[i][k]
        != '?' by {
        assert(is_plain_alias(r[i]));
        assert(r[i].contains(r[i][k]));
    }
    assert forall|i: int| 0 <= i < r.len() && #[trigger] r[i].len() > 0 implies r[i][0] != '!' by {
        assert(is_plain_alias(r[i]));
    }
}

/// The characters that a list of bounds selects in `v`.
pub open spec fn range_views(v: Seq<char>, rs: Seq<(usize, usize)>) -> Seq<Seq<char>> {
    Seq::new(rs.len(), |i: int| v.subrange(rs[i].0 as int, rs[i].1 as int))
}

/// Bounds that lie inside a text of length `n`.
pub open spec fn ranges_within(rs: Seq<(usize, usize)>, n: nat) -> bool {
    forall|i: int| #![trigger rs[i]] 0 <= i < rs.len() ==> rs[i].0 <= rs[i].1 <= n
}

fn ranges_equal(v: &Vec<char>, a: (usize, usize), b: (usize, usize)) -> (r: bool)
    requires
        a.0 <= a.1 <= v.len(),
        b.0 <= b.1 <= v.len(),
    ensures
        r == (v@.subrange(a.0 as int, a.1 as int) == v@.subrange(b.0 as int, b.1 as int)),
{
    if a.1 - a.0 != b.1 - b.0 {
        proof {
            let x = v@.subrange(a.0 as int, a.1 as int);
            let y = v@.subrange(b.0 as int, b.1 as int);
            assert(x.len() != y.len());
        }
        return false;
    }
    let n = a.1 - a.0;
    let ghost x = v@.subrange(a.0 as int, a.1 as int);
    let ghost y = v@.subrange(b.0 as int, b.1 as int);
    let mut k: usize = 0;
    while k < n
        invariant
            n == a.1 - a.0,
            n == b.1 - b.0,
            a.0 <= a.1 <= v.len(),
            b.0 <= b.1 <= v.len(),
            x == v@.subrange(a.0 as int, a.1 as int),
            y == v@.subrange(b.0 as int, b.1 as int),
            k <= n,
            forall|j: int| 0 <= j < k ==> #[trigger] x[j] == y[j],
        decreases n - k,
    {
        assert(x[k as int] == v@[a.0 + k] && y[k as int] == v@[b.0 + k]);
        if v[a.0 + k] != v[b.0 + k] {
            return false;
        }
        k = k + 1;
    }
    assert(x =~= y);
    true
}

fn plain_alias_range(v: &Vec<char>, a: (usize, usize)) -> (r: bool)
    requires
        a.0 <= a.1 <= v.len(),
    ensures
        r == is_plain_alias(v@.subrange(a.0 as int, a.1 as int)),
{
    let ghost w = v@.subrange(a.0 as int, a.1 as int);
    if a.0 < a.1 && v[a.0] == '!' {
        assert(w[0] == v@[a.0 as int]);
        return false;
    }
    let mut k = a.0;
    while k < a.1
        invariant
            a.0 <= k <= a.1 <= v.len(),
            w == v@.subrange(a.0 as int, a.1 as int),
            forall|j: int| a.0 <= j < k ==> v@[j] != '*' && v@[j] != '?',
        decreases a.1 - k,
    {
        if v[k] == '*' || v[k] == '?' {
            assert(w[k - a.0] == v@[k as int]);
            return false;
        }
        k = k + 1;
    }
    assert(!w.contains('*') && !w.contains('?')) by {
        assert forall|j: int| 0 <= j < w.len() implies w[j] != '*' && w[j] != '?' by {
            assert(w[j] == v@[a.0 + j]);
        }
    }
    true
}

fn listed(v: &Vec<char>, out: &Vec<(usize, usize)>, a: (usize, usize)) -> (r: bool)
    requires
        a.0 <= a.1 <= v.len(),
        ranges_within(out@, v@.len()),
    ensures
        r == range_views(v@, out@).contains(v@.subrange(a.0 as int, a.1 as int)),
{
    let ghost w = v@.subrange(a.0 as int, a.1 as int);
    let ghost views = range_views(v@, out@);
    let mut i: usize = 0;
    while i < out.len()
        invariant
            i <= out.len(),
            ranges_within(out@, v@.len()),
            a.0 <= a.1 <= v.len(),
            w == v@.subrange(a.0 as int, a.1 as int),
            views == range_views(v@, out@),
            forall|j: int| 0 <= j < i ==> views[j] != w,
        decreases out.len() - i,
    {
        assert(out@[i as int].0 <= out@[i as int].1 <= v@.len());
        if ranges_equal(v, out[i], a) {
            assert(views[i as int] == w);
            return true;
        }
        i = i + 1;
    }
    assert(!views.contains(w));
    false
}

/// Adds the aliases of the line `v[lo..hi]` to `out`.
fn collect_line(v: &Vec<char>, lo: usize, hi: usize, out: &mut Vec<(usize, usize)>)
    requires
        lo <= hi <= v.len(),
        ranges_within(old(out)@, v@.len()),
    ensures
        ranges_within(final(out)@, v@.len()),
        range_views(v@, final(out)@) == add_aliases(
            range_views(v@, old(out)@),
            line_aliases(v@.subrange(lo as int, hi as int)),
        ),
{
    let ghost start_views = range_views(v@, out@);
    let (a, b) = trim_range(v, lo, hi);
    let ghost line = v@.subrange(a as int, b as int);
    if a == b {
        return;
    }
    assert(line[0] == v@[a as int]);
    if v[a] == '#' {
        return;
    }
    let host = b - a >= 5 && (v[a] == 'h' || v[a] == 'H') && (v[a + 1] == 'o' || v[a + 1] == 'O')
        && (v[a + 2] == 's' || v[a + 2] == 'S') && (v[a + 3] == 't' || v[a + 3] == 'T') && (v[a
        + 4] == ' ' || v[a + 4] == '\t');
    proof {
        if b - a >= 5 {
            assert(line[1] == v@[a + 1]);
            assert(line[2] == v@[a + 2]);
            assert(line[3] == v@[a + 3]);
            assert(line[4] == v@[a + 4]);
        }
    }
    if !host {
        return;
    }
    assert(line.skip(4) =~= v@.subrange(a + 4, b as int));
    let c = trim_start_range(v, a + 4, b);
    let ws = word_ranges(v, c, b);
    let ghost cands = words(v@.subrange(c as int, b as int));
    assert(cands == line_aliases(v@.subrange(lo as int, hi as int)));
    let mut j: usize = 0;
    while j < ws.len()
        invariant
            j <= ws.len(),
            ws.len() == cands.len(),
            c <= b <= v.len(),
            forall|i: int|
                #![trigger ws[i]]
                0 <= i < ws.len() ==> ws[i].0 <= ws[i].1 <= v.len() && v@.subrange(
                    ws[i].0 as int,
                    ws[i].1 as int,
                ) == cands[i],
            ranges_within(out@, v@.len()),
            range_views(v@, out@) == add_aliases(start_views, cands.take(j as int)),
        decreases ws.len() - j,
    {
        let w = ws[j];
        assert(ws@[j as int] == w);
        let ghost prev_views = range_views(v@, out@);
        let ghost prev_out = out@;
        assert(cands.take(j + 1).drop_last() =~= cands.take(j as int));
        assert(cands.take(j + 1).last() == cands[j as int]);
        if plain_alias_range(v, w) && !listed(v, out, w) {
            out.push(w);
            assert(range_views(v@, out@) =~= prev_views.push(cands[j as int])) by {
                assert forall|i: int| 0 <= i < prev_out.len() implies out@[i] == prev_out[i] by {}
            }
        }
        j = j + 1;
    }
    assert(cands.take(ws.len() as int) =~= cands);
}

/// The host aliases named on `Host` lines of an SSH config text, in order of
/// first appearance. Matching of the keyword ignores ASCII case; patterns
/// holding `*` or `?`, negations starting with `!`, and repeats are left out.
pub fn parse_ssh_aliases(config: &str) -> (r: Vec<String>)
    ensures
        r@.map_values(|s: String| s@) == ssh_config_aliases(config@),
{
    let v = chars_of(config);
    let mut out: Vec<(usize, usize)> = Vec::new();
    let mut start: usize = 0;
    let mut k: usize = 0;
    proof {
        assert(v@.take(0) =~= Seq::<char>::empty());
        assert(range_views(v@, out@) =~= Seq::<Seq<char>>::empty());
    }
    let ghost mut done: Seq<Seq<char>> = Seq::empty();
    while k < v.len()
        invariant
            start <= k <= v.len(),
            split_nl(v@.take(k as int)) == done.push(v@.subrange(start as int, k as int)),
            ranges_within(out@, v@.len()),
            range_views(v@, out@) == aliases_of_lines(done),
        decreases v.len() - k,
    {
        let ghost prev = v@.take(k as int);
        let ghost next = v@.take(k + 1);
        assert(next.drop_last() =~= prev);
        assert(next.last() == v@[k as int]);
        if v[k] == '\n' {
            collect_line(&v, start, k, &mut out);
            proof {
                let line = v@.subrange(start as int, k as int);
                assert(done.push(line).drop_last() =~= done);
                done = done.push(line);
                assert(v@.subrange(k + 1, k + 1) =~= Seq::<char>::empty());
            }
            start = k + 1;
        } else {
            proof {
                let rest = split_nl(prev);
                assert(rest.last() == v@.subrange(start as int, k as int));
                assert(v@.subrange(start as int, k + 1) =~= v@.subrange(start as int, k as int).push(
                    v@[k as int],
                ));
                assert(rest.update(rest.len() - 1, rest.last().push(v@[k as int])) =~= done.push(
                    v@.subrange(start as int, k + 1),
                ));
            }
        }
        k = k + 1;
    }
    collect_line(&v, start, k, &mut out);
    proof {
        let line = v@.subrange(start as int, k as int);
        assert(done.push(line).drop_last() =~= done);
        assert(v@.take(k as int) =~= v@);
        assert(v@ == config@);
    }
    let mut r: Vec<String> = Vec::new();
    let mut i: usize = 0;
    while i < out.len()
        invariant
            i <= out.len(),
            ranges_within(out@, v@.len()),
            r@.map_values(|s: String| s@) == range_views(v@, out@).take(i as int),
        decreases out.len() - i,
    {
        assert(out@[i as int].0 <= out@[i as int].1 <= v@.len());
        let s = string_of_range(&v, out[i].0, out[i].1);
        let ghost prev = r@;
        r.push(s);
        assert(r@.map_values(|s: String| s@) =~= range_views(v@, out@).take(i + 1)) by {
            assert(r@.map_values(|s: String| s@) =~= prev.map_values(|s: String| s@).push(s@));
        }
        i = i + 1;
    }
    assert(range_views(v@, out@).take(out.len() as int) =~= range_views(v@, out@));
    r
}

// ---- WSL distribution list -------------------------------------------------

/// The trimmed pieces of `segs` that are not empty, in order.
pub open spec fn nonblank_trimmed(segs: Seq<Seq<char>>) -> Seq<Seq<char>>
    decreases segs.len(),
{
    if segs.len() == 0 {
        Seq::<Seq<char>>::empty()
    } else {
        let r = nonblank_trimmed(segs.drop_last());
        let t = trim_spec(segs.last());
        if t.len() > 0 {
            r.push(t)
        } else {
            r
        }
    }
}

/// A trimmed, non-empty text starts and ends with a character that is not
/// whitespace.
pub proof fn lemma_trimmed_edges(s: Seq<char>)
    ensures
        trim_spec(s).len() > 0 ==> !is_ws(trim_spec(s)[0]) && !is_ws(trim_spec(s).last()),
{
    lemma_trim_start_head(s);
    lemma_trim_end_keeps_head(trim_start_spec(s));
}

proof fn lemma_trim_start_head(s: Seq<char>)
    ensures
        trim_start_spec(s).len() > 0 ==> !is_ws(trim_start_spec(s)[0]),
    decreases s.len(),
{
    if s.len() > 0 && is_ws(s[0]) {
        lemma_trim_start_head(s.drop_first());
    }
}

proof fn lemma_trim_end_keeps_head(s: Seq<char>)
    ensures
        trim_end_spec(s).len() > 0 ==> !is_ws(trim_end_spec(s).last()) && trim_end_spec(s)[0]
            == s[0] && trim_end_spec(s).len() <= s.len(),
    decreases s.len(),
{
    if s.len() > 0 && is_ws(s.last()) {
        lemma_trim_end_keeps_head(s.drop_last());
    }
}

proof fn lemma_nonblank_trimmed_edges(segs: Seq<Seq<char>>)
    ensures
        forall|i: int|
            0 <= i < nonblank_trimmed(segs).len() ==> #[trigger] nonblank_trimmed(segs)[i].len()
                > 0 && !is_ws(nonblank_trimmed(segs)[i][0]) && !is_ws(
                nonblank_trimmed(segs)[i].last(),
            ),
    decreases segs.len(),
{
    if segs.len() > 0 {
        lemma_nonblank_trimmed_edges(segs.drop_last());
        lemma_trimmed_edges(segs.last());
        let prev = nonblank_trimmed(segs.drop_last());
        let cur = nonblank_trimmed(segs);
        assert forall|i: int| 0 <= i < cur.len() implies #[trigger] cur[i].len() > 0 && !is_ws(
            cur[i][0],
        ) && !is_ws(cur[i].last()) by {
            if i < prev.len() {
                assert(cur[i] == prev[i]);
            }
        }
    }
}

/// Every line kept is non-empty and neither starts nor ends with whitespace.
pub proof fn law_trimmed_lines_clean(text: Seq<char>)
    ensures
        forall|i: int|
            0 <= i < trimmed_lines_spec(text).len() ==> #[trigger] trimmed_lines_spec(text)[i].len()
                > 0 && !is_ws(trimmed_lines_spec(text)[i][0]) && !is_ws(
                trimmed_lines_spec(text)[i].last(),
            ),
{
    lemma_nonblank_trimmed_edges(split_nl(text));
}

/// The lines of `text`, trimmed, without the blank ones.
pub open spec fn trimmed_lines_spec(text: Seq<char>) -> Seq<Seq<char>> {
    nonblank_trimmed(split_nl(text))
}

/// The lines of `text`, each trimmed of surrounding whitespace, leaving out
/// lines that are blank.
pub fn trimmed_lines(text: &str) -> (r: Vec<String>)
    ensures
        r@.map_values(|s: String| s@) == trimmed_lines_spec(text@),
{
    let v = chars_of(text);
    let mut r: Vec<String> = Vec::new();
    let mut start: usize = 0;
    let mut k: usize = 0;
    assert(v@.take(0) =~= Seq::<char>::empty());
    let ghost mut done: Seq<Seq<char>> = Seq::empty();
    while k < v.len()
        invariant
            start <= k <= v.len(),
            split_nl(v@.take(k as int)) == done.push(v@.subrange(start as int, k as int)),
            r@.map_values(|s: String| s@) == nonblank_trimmed(done),
        decreases v.len() - k,
    {
        let ghost prev = v@.take(k as int);
        let ghost next = v@.take(k + 1);
        assert(next.drop_last() =~= prev);
        assert(next.last() == v@[k as int]);
        if v[k] == '\n' {
            push_trimmed(&v, start, k, &mut r);
            proof {
                let line = v@.subrange(start as int, k as int);
                assert(done.push(line).drop_last() =~= done);
                done = done.push(line);
                assert(v@.subrange(k + 1, k + 1) =~= Seq::<char>::empty());
            }
            start = k + 1;
        } else {
            proof {
                let rest = split_nl(prev);
                assert(v@.subrange(start as int, k + 1) =~= v@.subrange(start as int, k as int).push(
                    v@[k as int],
                ));
                assert(rest.update(rest.len() - 1, rest.last().push(v@[k as int])) =~= done.push(
                    v@.subrange(start as int, k + 1),
                ));
            }
        }
        k = k + 1;
    }
    push_trimmed(&v, start, k, &mut r);
    proof {
        let line = v@.subrange(start as int, k as int);
        assert(done.push(line).drop_last() =~= done);
        assert(v@.take(k as int) =~= v@);
    }
    r
}

/// Appends the trimmed line `v[lo..hi]` to `r` unless it is blank.
fn push_trimmed(v: &Vec<char>, lo: usize, hi: usize, r: &mut Vec<String>)
    requires
        lo <= hi <= v.len(),
    ensures
        ({
            let t = trim_spec(v@.subrange(lo as int, hi as int));
            let expect = if t.len() > 0 {
                old(r)@.map_values(|s: String| s@).push(t)
            } else {
                old(r)@.map_values(|s: String| s@)
            };
            final(r)@.map_values(|s: String| s@) == expect
        }),
{
    let (a, b) = trim_range(v, lo, hi);
    if a < b {
        let s = string_of_range(v, a, b);
        r.push(s);
        assert(r@.map_values(|s: String| s@) =~= old(r)@.map_values(|s: String| s@).push(
            v@.subrange(a as int, b as int),
        ));
    } else {
        assert(r@.map_values(|s: String| s@) =~= old(r)@.map_values(|s: String| s@));
    }
}

/// What `String::from_utf16_lossy` yields for `units`: each well-formed
/// UTF-16 sequence becomes its character, each unpaired surrogate U+FFFD.
pub open spec fn utf16_lossy(units: Seq<u16>) -> Seq<char>
    decreases units.len(),
{
    if units.len() == 0 {
        Seq::<char>::empty()
    } else if units[0] < 0xD800 || units[0] > 0xDFFF {
        seq![(units[0] as u32) as char] + utf16_lossy(units.drop_first())
    } else if units[0] <= 0xDBFF && units.len() >= 2 && 0xDC00 <= units[1] <= 0xDFFF {
        seq![
            (0x10000 + (units[0] - 0xD800) * 0x400 + (units[1] - 0xDC00)) as char
        ] + utf16_lossy(units.skip(2))
    } else {
        seq!['\u{FFFD}'] + utf16_lossy(units.drop_first())
    }
}

/// The text that `String::from_utf8_lossy` yields for `bytes`.
pub uninterp spec fn utf8_lossy(bytes: Seq<u8>) -> Seq<char>;

/// Decodes UTF-16 code units.
///
/// Trusted: calls `String::from_utf16_lossy`, which std documents as
/// decoding UTF-16 and replacing invalid data (unpaired surrogates) with
/// U+FFFD; the contract writes that out as `utf16_lossy`.
#[verifier::external_body]
fn decode_utf16_lossy(units: &Vec<u16>) -> (s: String)
    ensures
        s@ == utf16_lossy(units@),
{
    String::from_utf16_lossy(units)
}

/// Decodes UTF-8 bytes.
///
/// Trusted: calls `String::from_utf8_lossy`. Its result is named
/// `utf8_lossy`; the one fact stated is the documented one that valid UTF-8
/// decodes to its characters. How invalid sequences are replaced is left
/// unsaid.
#[verifier::external_body]
fn decode_utf8_lossy(bytes: &[u8]) -> (s: String)
    ensures
        s@ == utf8_lossy(bytes@),
        valid_utf8(bytes@) ==> s@ == decode_utf8(bytes@),
{
    String::from_utf8_lossy(bytes).into_owned()
}

/// Little-endian 16-bit units read from byte pairs; an odd last byte is
/// dropped (`chunks_exact(2)` with `u16::from_le_bytes`).
pub open spec fn le_units(b: Seq<u8>) -> Seq<u16> {
    Seq::new(b.len() / 2, |i: int| (b[2 * i] + 256 * b[2 * i + 1]) as u16)
}

/// The text of `wsl -l --quiet` output: UTF-16 LE after a byte-order mark
/// `FF FE`, otherwise UTF-8.
pub open spec fn wsl_output_text(raw: Seq<u8>) -> Seq<char> {
    if raw.len() >= 2 && raw[0] == 0xFF && raw[1] == 0xFE {
        utf16_lossy(le_units(raw.skip(2)))
    } else {
        utf8_lossy(raw)
    }
}

/// The distribution names listed in the raw output of `wsl -l --quiet`:
/// its lines, trimmed, without blank ones.
pub fn parse_wsl_list(raw: &[u8]) -> (r: Vec<String>)
    ensures
        r@.map_values(|s: String| s@) == trimmed_lines_spec(wsl_output_text(raw@)),
{
    let text = if raw.len() >= 2 && raw[0] == 0xFF && raw[1] == 0xFE {
        let mut units: Vec<u16> = Vec::new();
        let n = (raw.len() - 2) / 2;
        let ghost body = raw@.skip(2);
        let mut i: usize = 0;
        while i < n
            invariant
                n == (raw@.len() - 2) / 2,
                raw@.len() >= 2,
                body == raw@.skip(2),
                i <= n,
                units@.len() == i,
                forall|j: int| 0 <= j < i ==> #[trigger] units@[j] == le_units(body)[j],
            decreases n - i,
        {
            let len = raw.len();
            assert(2 * i + 3 < len) by (nonlinear_arith)
                requires
                    i < n,
                    n == (len - 2) / 2,
                    len >= 2,
            ;
            let lo = raw[2 + 2 * i];
            let hi = raw[3 + 2 * i];
            assert(body[2 * i] == lo && body[2 * i + 1] == hi);
            let u: u16 = (lo as u16) + 256 * (hi as u16);
            units.push(u);
            i = i + 1;
        }
        assert(units@ =~= le_units(body));
        decode_utf16_lossy(&units)
    } else {
        decode_utf8_lossy(raw)
    };
    trimmed_lines(text.as_str())
}

} // verus!
