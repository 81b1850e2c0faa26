use vstd::prelude::*;

use crate::detectors::prompt::{lemma_strings_view_push, strings_view};
use crate::text::{chars_eq, chars_of, push_all, to_owned_string};

verus! {

/// Lexicographic order on texts by character code, which is the order of
/// `String`'s `Ord` (UTF-8 byte order agrees with code point order).
pub open spec fn lex_lt(a: Seq<char>, b: Seq<char>) -> bool
    decreases a.len(),
{
    if a.len() == 0 {
        b.len() > 0
    } else if b.len() == 0 {
        false
    } else if (a[0] as u32) < (b[0] as u32) {
        true
    } else if a[0] == b[0] {
        lex_lt(a.drop_first(), b.drop_first())
    } else {
        false
    }
}

pub proof fn lemma_lex_irreflexive(a: Seq<char>)
    ensures
        !lex_lt(a, a),
    decreases a.len(),
{
    if a.len() > 0 {
        lemma_lex_irreflexive(a.drop_first());
    }
}

pub proof fn lemma_lex_total(a: Seq<char>, b: Seq<char>)
    ensures
        a != b ==> lex_lt(a, b) || lex_lt(b, a),
        !(lex_lt(a, b) && lex_lt(b, a)),
    decreases a.len(),
{
    if a.len() > 0 && b.len() > 0 {
        if a[0] == b[0] {
            lemma_lex_total(a.drop_first(), b.drop_first());
            if a != b {
                assert(a =~= seq![a[0]] + a.drop_first());
                assert(b =~= seq![b[0]] + b.drop_first());
            }
        } else {
            vstd::utf8::char_u32_cast(a[0], a[0] as u32);
            vstd::utf8::char_u32_cast(b[0], b[0] as u32);
        }
    } else if a.len() == 0 && b.len() == 0 {
        assert(a =~= b);
    }
}

pub proof fn lemma_lex_transitive(a: Seq<char>, b: Seq<char>, c: Seq<char>)
    requires
        lex_lt(a, b),
        lex_lt(b, c),
    ensures
        lex_lt(a, c),
    decreases a.len(),
{
    if a.len() > 0 && b.len() > 0 && c.len() > 0 {
        if a[0] == b[0] && b[0] == c[0] {
            lemma_lex_transitive(a.drop_first(), b.drop_first(), c.drop_first());
        }
    }
}

/// Strictly increasing, so sorted with no repeats.
pub open spec fn strictly_sorted(s: Seq<Seq<char>>) -> bool {
    forall|i: int, j: int| 0 <= i < j < s.len() ==> lex_lt(#[trigger] s[i], #[trigger] s[j])
}

/// `a` comes strictly before `b` in the order of `String`.
pub fn lex_less(a: &Vec<char>, b: &Vec<char>) -> (r: bool)
    ensures
        r == lex_lt(a@, b@),
{
    let mut i: usize = 0;
    assert(a@.skip(0) =~= a@);
    assert(b@.skip(0) =~= b@);
    while i < a.len() && i < b.len() && a[i] == b[i]
        invariant
            i <= a.len(),
            i <= b.len(),
            lex_lt(a@, b@) == lex_lt(a@.skip(i as int), b@.skip(i as int)),
        decreases a.len() - i,
    {
        assert(a@.skip(i as int).drop_first() =~= a@.skip(i + 1));
        assert(b@.skip(i as int).drop_first() =~= b@.skip(i + 1));
        i += 1;
    }
    if i == a.len() {
        i < b.len()
    } else if i == b.len() {
        false
    } else {
        (a[i] as u32) < (b[i] as u32)
    }
}

/// Adds `s` to a strictly sorted list unless it is already there, keeping
/// the list strictly sorted.
pub fn insert_sorted_unique(v: &mut Vec<String>, s: String)
    requires
        strictly_sorted(strings_view(old(v)@)),
    ensures
        strictly_sorted(strings_view(final(v)@)),
        strings_view(final(v)@).to_set() == strings_view(old(v)@).to_set().insert(s@),
{
    let ghost old_view = strings_view(v@);
    let sc = chars_of(s.as_str());
    let mut p: usize = 0;
    let mut stop = false;
    while !stop && p < v.len()
        invariant
            p <= v.len(),
            sc@ == s@,
            strings_view(v@) == old_view,
            strictly_sorted(old_view),
            forall|k: int| 0 <= k < p ==> lex_lt(#[trigger] old_view[k], s@),
            stop ==> p < v.len() && !lex_lt(old_view[p as int], s@),
        decreases v.len() - p + (if stop {
            0int
        } else {
            1int
        }),
    {
        let vc = chars_of(v[p].as_str());
        assert(vc@ == old_view[p as int]);
        if !lex_less(&vc, &sc) {
            stop = true;
        } else {
            p += 1;
        }
    }
    if p < v.len() {
        let vc = chars_of(v[p].as_str());
        assert(vc@ == old_view[p as int]);
        if chars_eq(&vc, &sc) {
            assert(old_view.contains(s@));
            assert(old_view.to_set().insert(s@) =~= old_view.to_set());
            return ;
        }
        proof {
            lemma_lex_total(old_view[p as int], s@);
        }
    }
    let ghost before = v@;
    v.insert(p, s);
    proof {
        let nv = strings_view(v@);
        assert(nv =~= old_view.insert(p as int, s@));
        assert forall|i: int, j: int| 0 <= i < j < nv.len() implies lex_lt(
            #[trigger] nv[i],
            #[trigger] nv[j],
        ) by {
            if j < p {
            } else if j == p {
            } else if i < p {
                assert(nv[j] == old_view[j - 1]);
                if j - 1 > p {
                    lemma_lex_transitive(old_view[i], old_view[p as int], old_view[j - 1]);
                }
            } else if i == p {
                assert(nv[j] == old_view[j - 1]);
                if j - 1 > p {
                    lemma_lex_transitive(s@, old_view[p as int], old_view[j - 1]);
                }
            } else {
                assert(nv[i] == old_view[i - 1]);
                assert(nv[j] == old_view[j - 1]);
            }
        }
        assert forall|x: Seq<char>| #[trigger] nv.to_set().contains(x) <==> old_view.to_set().insert(
            s@,
        ).contains(x) by {
            if nv.to_set().contains(x) {
                let k = choose|k: int| 0 <= k < nv.len() && nv[k] == x;
                if k < p {
                    assert(old_view[k] == x);
                } else if k > p {
                    assert(old_view[k - 1] == x);
                }
            }
            if old_view.to_set().contains(x) {
                let k = choose|k: int| 0 <= k < old_view.len() && old_view[k] == x;
                if k < p {
                    assert(nv[k] == x);
                } else {
                    assert(nv[k + 1] == x);
                }
            }
            if x == s@ {
                assert(nv[p as int] == x);
            }
        }
        assert(nv.to_set() =~= old_view.to_set().insert(s@));
    }
}

pub proof fn lemma_push_to_set(s: Seq<Seq<char>>, x: Seq<char>)
    ensures
        s.push(x).to_set() == s.to_set().insert(x),
{
    assert forall|y: Seq<char>| #[trigger] s.push(x).to_set().contains(y) <==> s.to_set().insert(
        x,
    ).contains(y) by {
        if s.push(x).to_set().contains(y) {
            let k = choose|k: int| 0 <= k < s.push(x).len() && s.push(x)[k] == y;
            if k < s.len() {
                assert(s[k] == y);
            }
        }
        if s.to_set().contains(y) {
            let k = choose|k: int| 0 <= k < s.len() && s[k] == y;
            assert(s.push(x)[k] == y);
        }
        if y == x {
            assert(s.push(x)[s.len() as int] == y);
        }
    }
    assert(s.push(x).to_set() =~= s.to_set().insert(x));
}

/// `names` sorted and without repeats, as `sort` followed by `dedup` leaves them.
pub fn sort_dedup(names: Vec<String>) -> (r: Vec<String>)
    ensures
        strictly_sorted(strings_view(r@)),
        strings_view(r@).to_set() == strings_view(names@).to_set(),
{
    let mut out: Vec<String> = Vec::new();
    assert(strings_view(out@) =~= Seq::empty());
    let mut i: usize = 0;
    while i < names.len()
        invariant
            i <= names.len(),
            strictly_sorted(strings_view(out@)),
            strings_view(out@).to_set() == strings_view(names@.take(i as int)).to_set(),
        decreases names.len() - i,
    {
        let ghost before = strings_view(out@).to_set();
        insert_sorted_unique(&mut out, names[i].clone());
        proof {
            lemma_strings_view_push(names@.take(i as int), names@[i as int]);
            assert(names@.take(i + 1) =~= names@.take(i as int).push(names@[i as int]));
            lemma_push_to_set(strings_view(names@.take(i as int)), names@[i as int]@);
        }
        i += 1;
    }
    assert(names@.take(names.len() as int) =~= names@);
    out
}

/// Two strictly sorted lists with the same elements are the same list.
pub proof fn lemma_sorted_unique(a: Seq<Seq<char>>, b: Seq<Seq<char>>)
    requires
        strictly_sorted(a),
        strictly_sorted(b),
        a.to_set() == b.to_set(),
    ensures
        a == b,
    decreases a.len() + b.len(),
{
    if a.len() == 0 {
        if b.len() > 0 {
            assert(b.to_set().contains(b[0]));
        }
        assert(a =~= b);
    } else if b.len() == 0 {
        assert(a.to_set().contains(a[0]));
    } else {
        assert(a.to_set().contains(a[0]));
        assert(b.to_set().contains(b[0]));
        let ka = choose|k: int| 0 <= k < b.len() && b[k] == a[0];
        let kb = choose|k: int| 0 <= k < a.len() && a[k] == b[0];
        if a[0] != b[0] {
            if ka > 0 && kb > 0 {
                lemma_lex_total(a[0], b[0]);
            }
            lemma_lex_irreflexive(a[0]);
            lemma_lex_irreflexive(b[0]);
        }
        assert(a[0] == b[0]);
        let ta = a.drop_first();
        let tb = b.drop_first();
        assert forall|x: Seq<char>| ta.to_set().contains(x) <==> tb.to_set().contains(x) by {
            if ta.to_set().contains(x) {
                let k = choose|k: int| 0 <= k < ta.len() && ta[k] == x;
                assert(a[k + 1] == x);
                assert(lex_lt(a[0], x));
                lemma_lex_irreflexive(x);
                assert(b.to_set().contains(x));
                let m = choose|m: int| 0 <= m < b.len() && b[m] == x;
                assert(m != 0);
                assert(tb[m - 1] == x);
            }
            if tb.to_set().contains(x) {
                let k = choose|k: int| 0 <= k < tb.len() && tb[k] == x;
                assert(b[k + 1] == x);
                assert(lex_lt(b[0], x));
                lemma_lex_irreflexive(x);
                assert(a.to_set().contains(x));
                let m = choose|m: int| 0 <= m < a.len() && a[m] == x;
                assert(m != 0);
                assert(ta[m - 1] == x);
            }
        }
        assert(ta.to_set() =~= tb.to_set());
        lemma_sorted_unique(ta, tb);
        assert(a =~= seq![a[0]] + ta);
        assert(b =~= seq![b[0]] + tb);
    }
}

/// Texts joined with a separator between each pair, as `join` does.
pub open spec fn join_seq(list: Seq<Seq<char>>, sep: Seq<char>) -> Seq<char>
    decreases list.len(),
{
    if list.len() == 0 {
        Seq::empty()
    } else if list.len() == 1 {
        list[0]
    } else {
        join_seq(list.drop_last(), sep) + sep + list.last()
    }
}

/// `list.join(sep)`.
pub fn join_strings(list: &Vec<String>, sep: &str) -> (r: String)
    ensures
        r@ == join_seq(strings_view(list@), sep@),
{
    let mut out = String::new();
    let ghost lv = strings_view(list@);
    let mut i: usize = 0;
    while i < list.len()
        invariant
            i <= list.len(),
            lv == strings_view(list@),
            out@ == join_seq(lv.take(i as int), sep@),
        decreases list.len() - i,
    {
        if i != 0 {
            push_all(&mut out, sep);
        }
        push_all(&mut out, list[i].as_str());
        proof {
            assert(lv.take(i + 1).drop_last() =~= lv.take(i as int));
            if i == 0 {
                assert(lv.take(1) =~= seq![lv[0]]);
            }
        }
        i += 1;
    }
    assert(lv.take(list.len() as int) =~= lv);
    out
}

/// `prefix` followed by the list joined with `", "`.
pub fn prefixed_list(prefix: &str, list: &Vec<String>) -> (r: String)
    ensures
        r@ == prefix@ + join_seq(strings_view(list@), ", "@),
{
    let mut s = to_owned_string(prefix);
    let j = join_strings(list, ", ");
    push_all(&mut s, j.as_str());
    s
}

} // verus!
