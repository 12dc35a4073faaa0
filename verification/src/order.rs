//! The order of strings (by code point, which is also the order of their UTF-8 bytes) and sorting.
use vstd::prelude::*;
use vstd::relations::{total_ordering, sorted_by, reflexive, antisymmetric, transitive, strongly_connected};
use crate::text::chars_of_string;
use crate::validation::views;

verus! {

/// `a` comes no later than `b` in lexicographic order of code points.
pub open spec fn lex_le(a: Seq<char>, b: Seq<char>) -> bool
    decreases a.len(),
{
    if a.len() == 0 {
        true
    } else if b.len() == 0 {
        false
    } else if a[0] != b[0] {
        (a[0] as u32) < (b[0] as u32)
    } else {
        lex_le(a.drop_first(), b.drop_first())
    }
}

/// The order `lex_le`, as a value.
pub open spec fn str_leq() -> spec_fn(Seq<char>, Seq<char>) -> bool {
    |a: Seq<char>, b: Seq<char>| lex_le(a, b)
}

proof fn lemma_char_eq(x: char, y: char)
    requires
        x as u32 == y as u32,
    ensures
        x == y,
{
    vstd::utf8::char_u32_cast(x, x as u32);
    vstd::utf8::char_u32_cast(y, y as u32);
}

proof fn lemma_lex_refl(a: Seq<char>)
    ensures
        lex_le(a, a),
    decreases a.len(),
{
    if a.len() > 0 {
        lemma_lex_refl(a.drop_first());
    }
}

proof fn lemma_lex_antisym(a: Seq<char>, b: Seq<char>)
    requires
        lex_le(a, b),
        lex_le(b, a),
    ensures
        a == b,
    decreases a.len(),
{
    if a.len() == 0 {
        assert(b.len() == 0);
        assert(a =~= b);
    } else {
        if a[0] != b[0] {
            if (a[0] as u32) == (b[0] as u32) {
                lemma_char_eq(a[0], b[0]);
            }
        } else {
            lemma_lex_antisym(a.drop_first(), b.drop_first());
            assert(a =~= seq![a[0]] + a.drop_first());
            assert(b =~= seq![b[0]] + b.drop_first());
        }
    }
}

proof fn lemma_lex_trans(a: Seq<char>, b: Seq<char>, c: Seq<char>)
    requires
        lex_le(a, b),
        lex_le(b, c),
    ensures
        lex_le(a, c),
    decreases a.len(),
{
    if a.len() > 0 && b.len() > 0 && c.len() > 0 {
        if a[0] == b[0] && b[0] == c[0] {
            lemma_lex_trans(a.drop_first(), b.drop_first(), c.drop_first());
        } else if a[0] == c[0] {
            if a[0] != b[0] && b[0] != c[0] {
                assert((a[0] as u32) < (b[0] as u32));
                assert((b[0] as u32) < (c[0] as u32));
            }
        } else {
            if a[0] == b[0] {
            } else if b[0] == c[0] {
            } else {
            }
        }
    }
}

proof fn lemma_lex_total(a: Seq<char>, b: Seq<char>)
    ensures
        lex_le(a, b) || lex_le(b, a),
    decreases a.len(),
{
    if a.len() > 0 && b.len() > 0 {
        if a[0] == b[0] {
            lemma_lex_total(a.drop_first(), b.drop_first());
        } else if (a[0] as u32) == (b[0] as u32) {
            lemma_char_eq(a[0], b[0]);
        }
    }
}

/// Lexicographic order of code points is a total order.
pub proof fn lemma_lex_total_ordering()
    ensures
        total_ordering(str_leq()),
{
    assert(reflexive(str_leq())) by {
        assert forall|x: Seq<char>| #[trigger] str_leq()(x, x) by {
            lemma_lex_refl(x);
        }
    }
    assert(antisymmetric(str_leq())) by {
        assert forall|x: Seq<char>, y: Seq<char>|
            #[trigger] str_leq()(x, y) && #[trigger] str_leq()(y, x) implies x == y by {
            lemma_lex_antisym(x, y);
        }
    }
    assert(transitive(str_leq())) by {
        assert forall|x: Seq<char>, y: Seq<char>, z: Seq<char>|
            #[trigger] str_leq()(x, y) && #[trigger] str_leq()(y, z) implies str_leq()(x, z) by {
            lemma_lex_trans(x, y, z);
        }
    }
    assert(strongly_connected(str_leq())) by {
        assert forall|x: Seq<char>, y: Seq<char>|
            #[trigger] str_leq()(x, y) || #[trigger] str_leq()(y, x) by {
            lemma_lex_total(x, y);
        }
    }
}

/// Whether `a` comes no later than `b` in lexicographic order of code points.
pub fn lex_le_exec(a: &[char], b: &[char]) -> (r: bool)
    ensures
        r == lex_le(a@, b@),
{
    let mut i: usize = 0;
    assert(a@.skip(0) =~= a@ && b@.skip(0) =~= b@);
    while i < a.len() && i < b.len() && a[i] == b[i]
        invariant
            i <= a@.len(),
            i <= b@.len(),
            lex_le(a@, b@) == lex_le(a@.skip(i as int), b@.skip(i as int)),
        decreases a@.len() - i,
    {
        assert(a@.skip(i as int).drop_first() =~= a@.skip(i + 1));
        assert(b@.skip(i as int).drop_first() =~= b@.skip(i + 1));
        i = i + 1;
    }
    if i == a.len() {
        true
    } else if i == b.len() {
        false
    } else {
        (a[i] as u32) < (b[i] as u32)
    }
}

/// The strings sorted in lexicographic order of code points (the order of `String`'s `Ord`).
pub fn sort_strings(v: Vec<String>) -> (out: Vec<String>)
    ensures
        views(out@) == views(v@).sort_by(str_leq()),
{
    proof {
        lemma_lex_total_ordering();
    }
    let mut out: Vec<String> = Vec::new();
    let mut i: usize = 0;
    assert(views(out@) =~= views(v@).take(0));
    while i < v.len()
        invariant
            i <= v@.len(),
            total_ordering(str_leq()),
            sorted_by(views(out@), str_leq()),
            views(out@).to_multiset() == views(v@).take(i as int).to_multiset(),
        decreases v@.len() - i,
    {
        let s = &v[i];
        let sc = chars_of_string(s);
        let mut k: usize = 0;
        loop
            invariant
                k <= out@.len(),
                sc@ == s@,
                forall|j: int| 0 <= j < k ==> lex_le(#[trigger] views(out@)[j], s@),
            ensures
                k <= out@.len(),
                forall|j: int| 0 <= j < k ==> lex_le(#[trigger] views(out@)[j], s@),
                k < out@.len() ==> !lex_le(views(out@)[k as int], s@),
            decreases out@.len() - k,
        {
            if k >= out.len() {
                break ;
            }
            let oc = chars_of_string(&out[k]);
            assert(views(out@)[k as int] == out@[k as int]@);
            if !lex_le_exec(oc.as_slice(), sc.as_slice()) {
                break ;
            }
            k = k + 1;
        }
        let ghost before = views(out@);
        out.insert(k, s.clone());
        proof {
            assert(views(out@) =~= before.insert(k as int, s@));
            vstd::seq_lib::to_multiset_insert(before, k as int, s@);
            assert(views(v@).take(i + 1) =~= views(v@).take(i as int).push(s@));
            vstd::seq_lib::to_multiset_build(views(v@).take(i as int), s@);
            if k < before.len() {
                assert(!lex_le(before[k as int], s@));
                lemma_lex_total(before[k as int], s@);
            }
            let after = views(out@);
            assert forall|x: int, y: int| 0 <= x < y < after.len() implies str_leq()(
                after[x],
                after[y],
            ) by {
                if y < k {
                    assert(after[x] == before[x] && after[y] == before[y]);
                } else if y == k {
                    assert(after[x] == before[x]);
                } else if x == k {
                    assert(after[y] == before[y - 1]);
                    if y - 1 > k {
                        assert(str_leq()(before[k as int], before[y - 1]));
                        lemma_lex_trans(s@, before[k as int], before[y - 1]);
                    }
                } else if x < k {
                    assert(after[x] == before[x] && after[y] == before[y - 1]);
                } else {
                    assert(after[x] == before[x - 1] && after[y] == before[y - 1]);
                }
            }
        }
        i = i + 1;
    }
    proof {
        assert(views(v@).take(v@.len() as int) =~= views(v@));
        views(v@).lemma_sort_by_ensures(str_leq());
        vstd::seq_lib::lemma_sorted_unique(views(out@), views(v@).sort_by(str_leq()), str_leq());
    }
    out
}

} // verus!
