//! Character-level text utilities shared by the extraction pipeline:
//! conversions between `String` and `Vec<char>`, whitespace trimming,
//! joining text fragments with single spaces, and prefix tests.

use vstd::prelude::*;
use vstd::std_specs::iter::IteratorSpec;

verus! {

/// Relies on std's `String::push`: appends exactly one character.
#[verifier::external_body]
pub(crate) fn push_char(s: &mut String, c: char)
    ensures
        final(s)@ == old(s)@.push(c),
{
    s.push(c);
}

/// The characters of a string slice, in order.
pub fn chars_of(s: &str) -> (v: Vec<char>)
    ensures
        v@ == s@,
{
    let mut v: Vec<char> = Vec::new();
    let mut it = s.chars();
    loop
        invariant
            it.obeys_prophetic_iter_laws(),
            it.decrease() is Some,
            v@ + it.remaining() == s@,
        ensures
            v@ + it.remaining() == s@,
            it.remaining().len() == 0,
        decreases it.decrease()->0,
    {
        match it.next() {
            Some(c) => {
                v.push(c);
            },
            None => {
                break ;
            },
        }
    }
    assert(v@ =~= s@);
    v
}

/// A `String` holding exactly the given characters.
pub fn string_of(v: &Vec<char>) -> (s: String)
    ensures
        s@ == v@,
{
    let mut s = String::new();
    let mut i: usize = 0;
    while i < v.len()
        invariant
            i <= v.len(),
            s@ == v@.subrange(0, i as int),
        decreases v.len() - i,
    {
        push_char(&mut s, v[i]);
        i = i + 1;
        assert(s@ =~= v@.subrange(0, i as int));
    }
    assert(s@ =~= v@);
    s
}

/// The Unicode `White_Space` characters, the set `str::trim` strips.
pub open spec fn is_space_char(c: char) -> bool {
    let u = c as u32;
    (0x09 <= u && u <= 0x0d) || u == 0x20 || u == 0x85 || u == 0xa0 || u == 0x1680 || (0x2000
        <= u && u <= 0x200a) || u == 0x2028 || u == 0x2029 || u == 0x202f || u == 0x205f || u
        == 0x3000
}

pub fn is_space(c: char) -> (r: bool)
    ensures
        r == is_space_char(c),
{
    let u = c as u32;
    (0x09 <= u && u <= 0x0d) || u == 0x20 || u == 0x85 || u == 0xa0 || u == 0x1680 || (0x2000 <= u
        && u <= 0x200a) || u == 0x2028 || u == 0x2029 || u == 0x202f || u == 0x205f || u == 0x3000
}

pub open spec fn trim_start_spec(s: Seq<char>) -> Seq<char>
    decreases s.len(),
{
    if s.len() > 0 && is_space_char(s[0]) {
        trim_start_spec(s.drop_first())
    } else {
        s
    }
}

pub open spec fn trim_end_spec(s: Seq<char>) -> Seq<char>
    decreases s.len(),
{
    if s.len() > 0 && is_space_char(s.last()) {
        trim_end_spec(s.drop_last())
    } else {
        s
    }
}

/// What `str::trim` returns: the string with leading and trailing
/// whitespace removed.
pub open spec fn trim_spec(s: Seq<char>) -> Seq<char> {
    trim_end_spec(trim_start_spec(s))
}

proof fn lemma_trim_start_skip(s: Seq<char>, i: int)
    requires
        0 <= i <= s.len(),
        forall|j: int| 0 <= j < i ==> is_space_char(s[j]),
        i == s.len() || !is_space_char(s[i]),
    ensures
        trim_start_spec(s) == s.skip(i),
    decreases i,
{
    if i == 0 {
        assert(s.skip(0) =~= s);
    } else {
        assert(is_space_char(s[0]));
        assert(s.drop_first() =~= s.skip(1));
        lemma_trim_start_skip(s.skip(1), i - 1);
        assert(s.skip(1).skip(i - 1) =~= s.skip(i));
    }
}

proof fn lemma_trim_end_take(s: Seq<char>, e: int)
    requires
        0 <= e <= s.len(),
        forall|j: int| e <= j < s.len() ==> is_space_char(s[j]),
        e == 0 || !is_space_char(s[e - 1]),
    ensures
        trim_end_spec(s) == s.take(e),
    decreases s.len() - e,
{
    if e == s.len() {
        assert(s.take(e) =~= s);
    } else {
        assert(is_space_char(s.last()));
        assert(s.drop_last() =~= s.take(s.len() - 1));
        lemma_trim_end_take(s.take(s.len() - 1), e);
        assert(s.take(s.len() - 1).take(e) =~= s.take(e));
    }
}

/// The characters of `v` with leading and trailing whitespace removed.
pub fn trim_chars(v: &Vec<char>) -> (r: Vec<char>)
    ensures
        r@ == trim_spec(v@),
{
    let n = v.len();
    let mut start: usize = 0;
    while start < n && is_space(v[start])
        invariant
            0 <= start <= n,
            n == v.len(),
            forall|j: int| 0 <= j < start ==> is_space_char(v@[j]),
        decreases n - start,
    {
        start = start + 1;
    }
    let mut end: usize = n;
    while end > start && is_space(v[end - 1])
        invariant
            start <= end <= n,
            n == v.len(),
            forall|j: int| end <= j < n ==> is_space_char(v@[j]),
        decreases end,
    {
        end = end - 1;
    }
    proof {
        lemma_trim_start_skip(v@, start as int);
        if end == start {
            lemma_trim_end_take(v@.skip(start as int), 0);
        } else {
            lemma_trim_end_take(v@.skip(start as int), end - start);
        }
    }
    let mut r: Vec<char> = Vec::new();
    let mut i: usize = start;
    while i < end
        invariant
            start <= i <= end <= n,
            n == v.len(),
            r@ == v@.subrange(start as int, i as int),
        decreases end - i,
    {
        r.push(v[i]);
        assert(r@ =~= v@.subrange(start as int, i + 1));
        i = i + 1;
    }
    assert(r@ =~= v@.skip(start as int).take(end - start));
    r
}

/// The trimmed form of a string, as `str::trim` yields it.
pub fn trim_string(s: &str) -> (r: String)
    ensures
        r@ == trim_spec(s@),
{
    let v = chars_of(s);
    let t = trim_chars(&v);
    string_of(&t)
}

/// The text fragments joined by single spaces, the shape the extraction
/// engine gives an element's text nodes before trimming.
pub open spec fn join_spaces_spec(parts: Seq<Seq<char>>) -> Seq<char>
    decreases parts.len(),
{
    if parts.len() == 0 {
        Seq::empty()
    } else if parts.len() == 1 {
        parts[0]
    } else {
        join_spaces_spec(parts.drop_last()) + seq![' '] + parts.last()
    }
}

/// Joins the given fragments with single spaces.
pub fn join_spaces(parts: &Vec<String>) -> (r: Vec<char>)
    ensures
        r@ == join_spaces_spec(parts.deep_view()),
{
    let mut r: Vec<char> = Vec::new();
    let mut i: usize = 0;
    while i < parts.len()
        invariant
            0 <= i <= parts.len(),
            r@ == join_spaces_spec(parts.deep_view().subrange(0, i as int)),
        decreases parts.len() - i,
    {
        if i > 0 {
            r.push(' ');
        }
        let cs = chars_of(parts[i].as_str());
        let mut j: usize = 0;
        while j < cs.len()
            invariant
                0 <= j <= cs.len(),
                cs@ == parts.deep_view()[i as int],
                i < parts.len(),
                r@ == if i == 0 {
                    cs@.subrange(0, j as int)
                } else {
                    join_spaces_spec(parts.deep_view().subrange(0, i as int)) + seq![' ']
                        + cs@.subrange(0, j as int)
                },
            decreases cs.len() - j,
        {
            r.push(cs[j]);
            j = j + 1;
            assert(cs@.subrange(0, j as int) =~= cs@.subrange(0, j - 1).push(cs@[j - 1]));
        }
        i = i + 1;
        proof {
            let parts_v = parts.deep_view();
            let pre = parts_v.subrange(0, i as int);
            assert(pre.drop_last() =~= parts_v.subrange(0, i - 1));
            assert(pre.last() == parts_v[i - 1]);
            assert(cs@.subrange(0, cs@.len() as int) =~= cs@);
            if i == 1 {
                assert(r@ == parts_v[0]);
                assert(join_spaces_spec(pre) == pre[0]);
            } else {
                assert(r@ == join_spaces_spec(pre.drop_last()) + seq![' '] + pre.last());
            }
        }
    }
    proof {
        assert(parts.deep_view().subrange(0, parts.deep_view().len() as int) =~= parts.deep_view());
    }
    r
}

/// `p` is a prefix of `s`.
pub open spec fn is_prefix_of(p: Seq<char>, s: Seq<char>) -> bool {
    p.len() <= s.len() && s.subrange(0, p.len() as int) == p
}

/// Whether the characters in `v` start with the prefix `p`.
pub fn starts_with_chars(v: &Vec<char>, p: &Vec<char>) -> (r: bool)
    ensures
        r == is_prefix_of(p@, v@),
{
    if p.len() > v.len() {
        assert(!is_prefix_of(p@, v@));
        return false;
    }
    let mut i: usize = 0;
    while i < p.len()
        invariant
            0 <= i <= p.len() <= v.len(),
            forall|j: int| 0 <= j < i ==> v@[j] == p@[j],
        decreases p.len() - i,
    {
        if v[i] != p[i] {
            assert(v@.subrange(0, p@.len() as int)[i as int] != p@[i as int]);
            return false;
        }
        i = i + 1;
    }
    assert(v@.subrange(0, p@.len() as int) =~= p@);
    true
}

/// Whether `v.deep_view()` holds the characters `x@` somewhere.
pub fn vec_contains_string(v: &Vec<String>, x: &String) -> (r: bool)
    ensures
        r == v.deep_view().contains(x@),
{
    let mut i: usize = 0;
    while i < v.len()
        invariant
            0 <= i <= v.len(),
            forall|j: int| 0 <= j < i ==> v.deep_view()[j] != x@,
        decreases v.len() - i,
    {
        if v[i].eq(x) {
            assert(v.deep_view()[i as int] == x@);
            return true;
        }
        i = i + 1;
    }
    assert(forall|j: int| 0 <= j < v.deep_view().len() ==> v.deep_view()[j] != x@);
    false
}

/// How a string splits at a separator: the parts between separators, in
/// order, the way `str::split` yields them (an empty string gives one
/// empty part).
pub open spec fn split_spec(s: Seq<char>, sep: char) -> Seq<Seq<char>>
    decreases s.len(),
{
    if s.len() == 0 {
        seq![Seq::<char>::empty()]
    } else if s[0] == sep {
        seq![Seq::<char>::empty()] + split_spec(s.drop_first(), sep)
    } else {
        let r = split_spec(s.drop_first(), sep);
        seq![seq![s[0]] + r[0]] + r.drop_first()
    }
}

proof fn lemma_split_nonempty(s: Seq<char>, sep: char)
    ensures
        split_spec(s, sep).len() >= 1,
    decreases s.len(),
{
    if s.len() == 0 {
    } else {
        lemma_split_nonempty(s.drop_first(), sep);
    }
}

spec fn split_join(cur: Seq<char>, r: Seq<Seq<char>>) -> Seq<Seq<char>> {
    seq![cur + r[0]] + r.drop_first()
}

/// Splits the characters of `v` at each occurrence of `sep`.
pub fn split_chars(v: &Vec<char>, sep: char) -> (parts: Vec<Vec<char>>)
    ensures
        parts.deep_view() == split_spec(v@, sep),
{
    let n = v.len();
    let mut parts: Vec<Vec<char>> = Vec::new();
    let mut cur: Vec<char> = Vec::new();
    let mut i: usize = 0;
    proof {
        lemma_split_nonempty(v@, sep);
        assert(v@.skip(0) =~= v@);
        assert(split_join(cur@, split_spec(v@, sep)) =~~= split_spec(v@, sep)) by {
            assert(cur@ + split_spec(v@, sep)[0] =~= split_spec(v@, sep)[0]);
            assert(seq![split_spec(v@, sep)[0]] + split_spec(v@, sep).drop_first() =~= split_spec(
                v@,
                sep,
            ));
        }
    }
    while i < n
        invariant
            0 <= i <= n,
            n == v.len(),
            split_spec(v@, sep) == parts.deep_view() + split_join(
                cur@,
                split_spec(v@.skip(i as int), sep),
            ),
        decreases n - i,
    {
        let ghost old_parts = parts.deep_view();
        let ghost old_cur = cur@;
        let ghost rest = v@.skip(i as int);
        proof {
            assert(rest[0] == v@[i as int]);
            assert(rest.drop_first() =~= v@.skip(i + 1));
            lemma_split_nonempty(v@.skip(i + 1), sep);
        }
        if v[i] == sep {
            let done = cur;
            cur = Vec::new();
            parts.push(done);
            proof {
                let r2 = split_spec(v@.skip(i + 1), sep);
                assert(split_spec(rest, sep) == seq![Seq::<char>::empty()] + r2);
                assert(split_join(old_cur, split_spec(rest, sep))[0] =~= old_cur);
                assert(split_join(old_cur, split_spec(rest, sep)) =~~= seq![old_cur] + split_join(
                    Seq::<char>::empty(),
                    r2,
                )) by {
                    assert((seq![Seq::<char>::empty()] + r2).drop_first() =~= r2);
                    assert(Seq::<char>::empty() + r2[0] =~= r2[0]);
                    assert(seq![r2[0]] + r2.drop_first() =~= r2);
                }
                assert(parts.deep_view() =~~= old_parts.push(old_cur));
                assert(old_parts.push(old_cur) + split_join(cur@, r2) =~~= old_parts + (
                seq![old_cur] + split_join(cur@, r2)));
            }
        } else {
            let c = v[i];
            cur.push(c);
            proof {
                let r2 = split_spec(v@.skip(i + 1), sep);
                assert(split_spec(rest, sep) == seq![seq![rest[0]] + r2[0]] + r2.drop_first());
                assert(split_join(old_cur, split_spec(rest, sep)) =~~= split_join(cur@, r2)) by {
                    assert((seq![seq![rest[0]] + r2[0]] + r2.drop_first()).drop_first() =~=
                    r2.drop_first());
                    assert(old_cur + (seq![rest[0]] + r2[0]) =~= cur@ + r2[0]);
                }
            }
        }
        i = i + 1;
    }
    parts.push(cur);
    proof {
        assert(v@.skip(n as int) =~= Seq::<char>::empty());
        let r = split_spec(v@.skip(n as int), sep);
        assert(r == seq![Seq::<char>::empty()]);
        assert(split_join(cur@, r) =~~= seq![cur@]) by {
            assert(cur@ + Seq::<char>::empty() =~= cur@);
            assert(r.drop_first() =~= Seq::<Seq<char>>::empty());
        }
        assert(parts.deep_view() =~~= split_spec(v@, sep));
    }
    parts
}

/// A filter of a duplicate-free sequence stays duplicate-free.
pub proof fn lemma_filter_no_duplicates<A>(s: Seq<A>, p: spec_fn(A) -> bool)
    requires
        s.no_duplicates(),
    ensures
        s.filter(p).no_duplicates(),
    decreases s.len(),
{
    reveal(Seq::filter);
    if s.len() > 0 {
        let rest = s.drop_last();
        assert(forall|i: int| 0 <= i < rest.len() ==> rest[i] == s[i]);
        lemma_filter_no_duplicates(rest, p);
        if p(s.last()) {
            let d = rest.filter(p).push(s.last());
            assert(!rest.contains(s.last()));
            assert(!rest.filter(p).contains(s.last())) by {
                if rest.filter(p).contains(s.last()) {
                    rest.lemma_filter_contains_rev(p, s.last());
                }
            }
            assert forall|i: int, j: int| 0 <= i < j < d.len() implies d[i] != d[j] by {
                if j == d.len() - 1 {
                    assert(rest.filter(p).contains(d[i]));
                } else {
                    assert(rest.filter(p)[i] == d[i] && rest.filter(p)[j] == d[j]);
                }
            }
        }
    }
}

/// A sequence still holds each of its elements after a push.
pub proof fn lemma_contains_push<A>(s: Seq<A>, x: A, y: A)
    requires
        s.contains(y),
    ensures
        s.push(x).contains(y),
{
    let k = choose|k: int| 0 <= k < s.len() && s[k] == y;
    assert(s.push(x)[k] == y);
}

/// First-occurrence deduplication: keeps each element's first
/// occurrence and drops every later repeat, preserving order.
pub open spec fn dedup_spec(s: Seq<Seq<char>>) -> Seq<Seq<char>>
    decreases s.len(),
{
    if s.len() == 0 {
        Seq::empty()
    } else {
        let prefix = dedup_spec(s.drop_last());
        if s.drop_last().contains(s.last()) {
            prefix
        } else {
            prefix.push(s.last())
        }
    }
}

/// Deduplication keeps exactly the elements of its input.
pub proof fn lemma_dedup_membership(s: Seq<Seq<char>>, x: Seq<char>)
    ensures
        dedup_spec(s).contains(x) <==> s.contains(x),
    decreases s.len(),
{
    if s.len() == 0 {
    } else {
        let rest = s.drop_last();
        lemma_dedup_membership(rest, x);
        if s.contains(x) {
            if rest.contains(x) {
                assert(dedup_spec(rest).contains(x));
                if !rest.contains(s.last()) {
                    lemma_contains_push(dedup_spec(rest), s.last(), x);
                }
            } else {
                let k = choose|k: int| 0 <= k < s.len() && s[k] == x;
                if k < s.len() - 1 {
                    assert(rest[k] == s[k]);
                }
                assert(k == s.len() - 1);
                assert(s.last() == x);
                assert(dedup_spec(s).last() == x);
            }
        }
        if dedup_spec(s).contains(x) {
            if rest.contains(s.last()) {
                assert(rest.contains(x));
                let k = choose|k: int| 0 <= k < rest.len() && rest[k] == x;
                assert(s[k] == x);
            } else {
                let d = dedup_spec(rest).push(s.last());
                let k = choose|k: int| 0 <= k < d.len() && d[k] == x;
                if k == d.len() - 1 {
                    assert(s.last() == x);
                    assert(s[s.len() - 1] == x);
                } else {
                    assert(dedup_spec(rest).contains(x));
                    let j = choose|j: int| 0 <= j < rest.len() && rest[j] == x;
                    assert(s[j] == x);
                }
            }
        }
    }
}

/// Law: the deduplicated listing has no repeated elements.
pub proof fn lemma_dedup_no_duplicates(s: Seq<Seq<char>>)
    ensures
        dedup_spec(s).no_duplicates(),
    decreases s.len(),
{
    if s.len() == 0 {
    } else {
        let rest = s.drop_last();
        lemma_dedup_no_duplicates(rest);
        if !rest.contains(s.last()) {
            lemma_dedup_membership(rest, s.last());
            assert(!dedup_spec(rest).contains(s.last()));
            let d = dedup_spec(rest).push(s.last());
            assert forall|i: int, j: int| 0 <= i < j < d.len() implies d[i] != d[j] by {
                if j == d.len() - 1 {
                    assert(dedup_spec(rest).contains(d[i]));
                } else {
                    assert(dedup_spec(rest)[i] == d[i] && dedup_spec(rest)[j] == d[j]);
                }
            }
        }
    }
}

/// Deduplicates, keeping each string's first occurrence in order.
pub(crate) fn dedup_strings(v: &Vec<String>) -> (r: Vec<String>)
    ensures
        r.deep_view() == dedup_spec(v.deep_view()),
{
    let mut r: Vec<String> = Vec::new();
    let mut i: usize = 0;
    while i < v.len()
        invariant
            0 <= i <= v.len(),
            r.deep_view() == dedup_spec(v.deep_view().take(i as int)),
        decreases v.len() - i,
    {
        let ghost dv = v.deep_view();
        let ghost prefix = dv.take(i as int);
        proof {
            assert(dv.take(i + 1).drop_last() =~= prefix);
            assert(dv.take(i + 1).last() == dv[i as int]);
            lemma_dedup_membership(prefix, dv[i as int]);
        }
        let seen = vec_contains_string(&r, &v[i]);
        if !seen {
            let ghost old_r = r.deep_view();
            r.push(v[i].clone());
            proof {
                assert(r.deep_view() =~= old_r.push(dv[i as int]));
            }
        }
        i = i + 1;
    }
    proof {
        assert(v.deep_view().take(v.deep_view().len() as int) =~= v.deep_view());
    }
    r
}

} // verus!
