use vstd::prelude::*;

use crate::wire::{str_utf8_len, utf8_len, MAX_FIELD_LENGTH};

verus! {

/// Whether `s` holds a `+` or a `#`.
pub open spec fn has_wildcard_chars(s: Seq<char>) -> bool {
    exists|i: int| 0 <= i < s.len() && (s[i] == '+' || s[i] == '#')
}

/// A topic that a PUBLISH may name: not empty, at most 65535 bytes of UTF-8,
/// and without wildcards.
pub open spec fn spec_valid_topic(t: Seq<char>) -> bool {
    &&& t.len() > 0
    &&& utf8_len(t) <= MAX_FIELD_LENGTH
    &&& !has_wildcard_chars(t)
}

/// Position `i` of `s` starts a level (it is first or follows a `/`).
pub open spec fn starts_level(s: Seq<char>, i: int) -> bool {
    i == 0 || s[i - 1] == '/'
}

/// Position `i` of `s` ends a level (it is last or a `/` follows it).
pub open spec fn ends_level(s: Seq<char>, i: int) -> bool {
    i == s.len() - 1 || s[i + 1] == '/'
}

/// A filter that a SUBSCRIBE may name: not empty, at most 65535 bytes of
/// UTF-8, every `+` a whole level, and a `#` only as the whole last level.
pub open spec fn spec_valid_filter(f: Seq<char>) -> bool {
    &&& f.len() > 0
    &&& utf8_len(f) <= MAX_FIELD_LENGTH
    &&& forall|i: int| 0 <= i < f.len() ==> (#[trigger] f[i] == '+' ==> starts_level(f, i) && ends_level(f, i))
    &&& forall|i: int| 0 <= i < f.len() ==> (#[trigger] f[i] == '#' ==> starts_level(f, i) && i == f.len() - 1)
}

/// The levels of `s`: the pieces between the `/` separators. There is always
/// at least one, and an empty string is one empty level.
pub open spec fn levels(s: Seq<char>) -> Seq<Seq<char>>
    decreases s.len(),
{
    if s.len() == 0 {
        seq![Seq::<char>::empty()]
    } else {
        let prev = levels(s.drop_last());
        if s.last() == '/' {
            prev.push(Seq::<char>::empty())
        } else {
            prev.update(prev.len() - 1, prev.last().push(s.last()))
        }
    }
}

/// Level-wise matching: a `+` filter level matches any one topic level, a `#`
/// filter level matches whatever levels remain (none included), and any other
/// level must be equal.
pub open spec fn levels_match(t: Seq<Seq<char>>, f: Seq<Seq<char>>) -> bool
    decreases f.len(),
{
    if f.len() == 0 {
        t.len() == 0
    } else if f[0] == seq!['#'] {
        true
    } else if t.len() == 0 {
        false
    } else if f[0] == seq!['+'] || f[0] == t[0] {
        levels_match(t.drop_first(), f.drop_first())
    } else {
        false
    }
}

/// Whether `topic` matches `filter`.
pub open spec fn spec_matches(topic: Seq<char>, filter: Seq<char>) -> bool {
    levels_match(levels(topic), levels(filter))
}

/// The characters of `s`.
fn chars_of(s: &str) -> (r: Vec<char>)
    ensures
        r@ == s@,
{
    let mut r: Vec<char> = Vec::new();
    for c in it: s.chars()
        invariant
            r@ == it.seq().take(it.index() as int),
    {
        r.push(c);
    }
    r
}

/// The value of each level.
pub open spec fn levels_view(v: Seq<Vec<char>>) -> Seq<Seq<char>> {
    v.map_values(|l: Vec<char>| l@)
}

/// Splits `s` into its levels.
fn split_levels(s: &Vec<char>) -> (r: Vec<Vec<char>>)
    ensures
        levels_view(r@) == levels(s@),
{
    let mut done: Vec<Vec<char>> = Vec::new();
    let mut cur: Vec<char> = Vec::new();
    let mut i: usize = 0;
    while i < s.len()
        invariant
            i <= s@.len(),
            levels(s@.take(i as int)) == levels_view(done@).push(cur@),
        decreases s@.len() - i,
    {
        let c = s[i];
        let ghost prefix = s@.take(i as int);
        assert(s@.take(i + 1).drop_last() =~= prefix);
        assert(s@.take(i + 1).last() == c);
        if c == '/' {
            let ghost cv = cur@;
            let ghost before = done@;
            done.push(cur);
            cur = Vec::new();
            assert(levels_view(done@) =~= levels_view(before).push(cv));
            assert(levels_view(done@).push(cur@) =~= levels_view(done@).push(Seq::<char>::empty()));
            assert(levels(s@.take(i + 1)) =~= levels(prefix).push(Seq::<char>::empty()));
        } else {
            cur.push(c);
            assert(levels(s@.take(i + 1)) =~= levels_view(done@).push(cur@));
        }
        i = i + 1;
    }
    assert(s@.take(i as int) =~= s@);
    done.push(cur);
    assert(levels_view(done@) =~= levels(s@));
    done
}

/// Whether two character vectors hold the same characters.
fn same_chars(a: &Vec<char>, b: &Vec<char>) -> (r: bool)
    ensures
        r == (a@ == b@),
{
    if a.len() != b.len() {
        return false;
    }
    let mut i: usize = 0;
    while i < a.len()
        invariant
            i <= a@.len(),
            a@.len() == b@.len(),
            forall|j: int| 0 <= j < i ==> a@[j] == b@[j],
        decreases a@.len() - i,
    {
        if a[i] != b[i] {
            return false;
        }
        i = i + 1;
    }
    assert(a@ =~= b@);
    true
}

/// Whether a level is exactly the one character `c`.
fn is_level(l: &Vec<char>, c: char) -> (r: bool)
    ensures
        r == (l@ == seq![c]),
{
    if l.len() == 1 && l[0] == c {
        assert(l@ =~= seq![c]);
        true
    } else {
        false
    }
}

/// Checks if a topic or topic filter has wildcards.
pub fn has_wildcards(s: &str) -> (r: bool)
    ensures
        r == has_wildcard_chars(s@),
{
    let cs = chars_of(s);
    let mut i: usize = 0;
    while i < cs.len()
        invariant
            cs@ == s@,
            i <= cs@.len(),
            forall|j: int| 0 <= j < i ==> cs@[j] != '+' && cs@[j] != '#',
        decreases cs@.len() - i,
    {
        if cs[i] == '+' || cs[i] == '#' {
            return true;
        }
        i = i + 1;
    }
    false
}

/// Checks if a topic is valid for a publish.
pub fn valid_topic(topic: &str) -> (r: bool)
    ensures
        r == spec_valid_topic(topic@),
{
    if topic.is_empty() || str_utf8_len(topic) > MAX_FIELD_LENGTH {
        return false;
    }
    !has_wildcards(topic)
}

/// Checks if a filter is valid for a subscribe.
pub fn valid_filter(filter: &str) -> (r: bool)
    ensures
        r == spec_valid_filter(filter@),
{
    if filter.is_empty() || str_utf8_len(filter) > MAX_FIELD_LENGTH {
        return false;
    }
    let f = chars_of(filter);
    let n = f.len();
    let mut i: usize = 0;
    while i < n
        invariant
            f@ == filter@,
            n == f@.len(),
            i <= n,
            forall|j: int| 0 <= j < i ==> (#[trigger] f@[j] == '+' ==> starts_level(f@, j) && ends_level(f@, j)),
            forall|j: int| 0 <= j < i ==> (#[trigger] f@[j] == '#' ==> starts_level(f@, j) && j == n - 1),
        decreases n - i,
    {
        let c = f[i];
        let starts = i == 0 || f[i - 1] == '/';
        if c == '+' {
            let ends = i == n - 1 || f[i + 1] == '/';
            if !starts || !ends {
                return false;
            }
        }
        if c == '#' {
            if !starts || i != n - 1 {
                return false;
            }
        }
        i = i + 1;
    }
    true
}

/// Checks if a topic matches a filter. Neither is validated here: a topic
/// should be checked with `valid_topic` when published and a filter with
/// `valid_filter` when subscribed. The first argument may be a filter too,
/// to compare two subscriptions.
pub fn matches(topic: &str, filter: &str) -> (r: bool)
    ensures
        r == spec_matches(topic@, filter@),
{
    let tc = chars_of(topic);
    let fc = chars_of(filter);
    let t = split_levels(&tc);
    let f = split_levels(&fc);
    let ghost tv = levels_view(t@);
    let ghost fv = levels_view(f@);
    assert(tv.skip(0) =~= tv);
    assert(fv.skip(0) =~= fv);
    let mut i: usize = 0;
    while i < f.len()
        invariant
            tv == levels(topic@),
            fv == levels(filter@),
            tv == levels_view(t@),
            fv == levels_view(f@),
            tv.len() == t@.len(),
            fv.len() == f@.len(),
            i <= f@.len(),
            i <= t@.len(),
            levels_match(tv, fv) == levels_match(tv.skip(i as int), fv.skip(i as int)),
        decreases f@.len() - i,
    {
        let ghost ts = tv.skip(i as int);
        let ghost fs = fv.skip(i as int);
        assert(fs[0] == fv[i as int]);
        if is_level(&f[i], '#') {
            return true;
        }
        if i == t.len() {
            return false;
        }
        assert(ts[0] == tv[i as int]);
        if is_level(&f[i], '+') || same_chars(&f[i], &t[i]) {
            assert(ts.drop_first() =~= tv.skip(i + 1));
            assert(fs.drop_first() =~= fv.skip(i + 1));
            i = i + 1;
        } else {
            return false;
        }
    }
    assert(fv.skip(i as int).len() == 0);
    i == t.len()
}

} // verus!
