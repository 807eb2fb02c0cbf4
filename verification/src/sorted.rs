use vstd::prelude::*;
use vstd::string::StrSliceExecFns;

use crate::strutil::str_eq;

verus! {

// ---------------------------------------------------------------------------
// Lexicographic order on character sequences
// ---------------------------------------------------------------------------

/// Lexicographic order by code point, the order `str` comparison gives.
pub open spec fn lex_le(a: Seq<char>, b: Seq<char>) -> bool
    decreases a.len(),
{
    if a.len() == 0 {
        true
    } else if b.len() == 0 {
        false
    } else if (a[0] as int) < (b[0] as int) {
        true
    } else if (a[0] as int) > (b[0] as int) {
        false
    } else {
        lex_le(a.drop_first(), b.drop_first())
    }
}

/// Strict lexicographic order.
pub open spec fn lex_lt(a: Seq<char>, b: Seq<char>) -> bool {
    lex_le(a, b) && a != b
}

/// The order is reflexive.
pub proof fn lemma_lex_le_refl(a: Seq<char>)
    ensures
        lex_le(a, a),
    decreases a.len(),
{
    if a.len() > 0 {
        lemma_lex_le_refl(a.drop_first());
    }
}

/// The order is total.
pub proof fn lemma_lex_le_total(a: Seq<char>, b: Seq<char>)
    ensures
        lex_le(a, b) || lex_le(b, a),
    decreases a.len(),
{
    if a.len() > 0 && b.len() > 0 && a[0] == b[0] {
        lemma_lex_le_total(a.drop_first(), b.drop_first());
    }
}

/// The order is antisymmetric.
pub proof fn lemma_lex_le_antisym(a: Seq<char>, b: Seq<char>)
    requires
        lex_le(a, b),
        lex_le(b, a),
    ensures
        a == b,
    decreases a.len(),
{
    if a.len() == 0 {
        assert(b.len() == 0);
        assert(a =~= b);
    } else {
        assert(b.len() > 0);
        assert(a[0] == b[0]);
        lemma_lex_le_antisym(a.drop_first(), b.drop_first());
        assert forall|i: int| 0 <= i < a.len() implies a[i] == b[i] by {
            if i > 0 {
                assert(a.drop_first()[i - 1] == b.drop_first()[i - 1]);
            }
        }
        assert(a =~= b);
    }
}

/// The order is transitive.
pub proof fn lemma_lex_le_trans(a: Seq<char>, b: Seq<char>, c: Seq<char>)
    requires
        lex_le(a, b),
        lex_le(b, c),
    ensures
        lex_le(a, c),
    decreases a.len(),
{
    if a.len() > 0 {
        assert(b.len() > 0);
        if c.len() > 0 && a[0] == b[0] && b[0] == c[0] {
            lemma_lex_le_trans(a.drop_first(), b.drop_first(), c.drop_first());
        }
    }
}

/// The order is decided at the first differing position.
proof fn lemma_lex_le_skip(a: Seq<char>, b: Seq<char>, i: int)
    requires
        0 <= i <= a.len(),
        i <= b.len(),
        forall|j: int| 0 <= j < i ==> a[j] == b[j],
    ensures
        lex_le(a, b) == lex_le(a.skip(i), b.skip(i)),
    decreases i,
{
    if i == 0 {
        assert(a.skip(0) =~= a);
        assert(b.skip(0) =~= b);
    } else {
        assert(a.len() > 0 && b.len() > 0 && a[0] == b[0]);
        let ta = a.drop_first();
        let tb = b.drop_first();
        assert(forall|j: int| 0 <= j < i - 1 ==> ta[j] == tb[j]);
        lemma_lex_le_skip(ta, tb, i - 1);
        assert(ta.skip(i - 1) =~= a.skip(i));
        assert(tb.skip(i - 1) =~= b.skip(i));
    }
}

/// Lexicographic comparison of two strings.
pub fn str_le(a: &str, b: &str) -> (r: bool)
    ensures
        r == lex_le(a@, b@),
{
    let alen = a.unicode_len();
    let blen = b.unicode_len();
    let mut i: usize = 0;
    loop
        invariant
            i <= alen,
            i <= blen,
            alen == a@.len(),
            blen == b@.len(),
            forall|j: int| 0 <= j < i ==> a@[j] == b@[j],
        decreases alen - i,
    {
        if i == alen {
            proof {
                lemma_lex_le_skip(a@, b@, i as int);
                assert(a@.skip(i as int).len() == 0);
            }
            return true;
        }
        if i == blen {
            proof {
                lemma_lex_le_skip(a@, b@, i as int);
                assert(b@.skip(i as int).len() == 0);
                assert(a@.skip(i as int).len() > 0);
            }
            return false;
        }
        let ca = a.get_char(i);
        let cb = b.get_char(i);
        if (ca as u32) < (cb as u32) {
            proof {
                lemma_lex_le_skip(a@, b@, i as int);
                assert(a@.skip(i as int)[0] == a@[i as int]);
                assert(b@.skip(i as int)[0] == b@[i as int]);
            }
            return true;
        }
        if (ca as u32) > (cb as u32) {
            proof {
                lemma_lex_le_skip(a@, b@, i as int);
                assert(a@.skip(i as int)[0] == a@[i as int]);
                assert(b@.skip(i as int)[0] == b@[i as int]);
            }
            return false;
        }
        proof {
            assert(a@[i as int] == b@[i as int]);
        }
        i += 1;
    }
}

// ---------------------------------------------------------------------------
// Sorted, duplicate-free vectors
// ---------------------------------------------------------------------------

/// Strictly ascending sequence of ports.
pub open spec fn sorted_strict_u16(s: Seq<u16>) -> bool {
    forall|i: int, j: int| 0 <= i < j < s.len() ==> s[i] < s[j]
}

/// Strictly ascending sequence of strings.
pub open spec fn sorted_strict_str(s: Seq<Seq<char>>) -> bool {
    forall|i: int, j: int| 0 <= i < j < s.len() ==> lex_lt(s[i], s[j])
}


/// Insertion of a port into a sorted duplicate-free sequence, as a value.
pub open spec fn sorted_insert(s: Seq<u16>, x: u16) -> Seq<u16>
    decreases s.len(),
{
    if s.len() == 0 {
        seq![x]
    } else if x < s[0] {
        seq![x] + s
    } else if x == s[0] {
        s
    } else {
        seq![s[0]] + sorted_insert(s.drop_first(), x)
    }
}

/// The sorted duplicate-free sequence holding exactly the values of `s`.
pub open spec fn sorted_set_of(s: Seq<u16>) -> Seq<u16>
    decreases s.len(),
{
    if s.len() == 0 {
        Seq::empty()
    } else {
        sorted_insert(sorted_set_of(s.drop_last()), s.last())
    }
}

/// Where the first not-smaller element sits decides what `sorted_insert`
/// yields.
proof fn lemma_sorted_insert_at(s: Seq<u16>, x: u16, i: int)
    requires
        0 <= i <= s.len(),
        forall|j: int| 0 <= j < i ==> s[j] < x,
        i == s.len() || s[i] >= x,
    ensures
        i < s.len() && s[i] == x ==> sorted_insert(s, x) == s,
        !(i < s.len() && s[i] == x) ==> sorted_insert(s, x) == s.take(i) + seq![x] + s.skip(i),
    decreases i,
{
    if i == 0 {
        if s.len() == 0 {
            assert(seq![x] =~= s.take(0) + seq![x] + s.skip(0));
        } else if s[0] == x {
        } else {
            assert(s[0] > x);
            assert(seq![x] + s =~= s.take(0) + seq![x] + s.skip(0));
        }
    } else {
        assert(s[0] < x);
        let t = s.drop_first();
        assert(forall|j: int| 0 <= j < i - 1 ==> t[j] == s[j + 1]);
        lemma_sorted_insert_at(t, x, i - 1);
        if i < s.len() && s[i] == x {
            assert(t[i - 1] == x);
            assert(seq![s[0]] + t =~= s);
        } else {
            assert(seq![s[0]] + (t.take(i - 1) + seq![x] + t.skip(i - 1)) =~= s.take(i) + seq![x]
                + s.skip(i));
        }
    }
}

/// Insert a port into a sorted duplicate-free vector, keeping it so.
pub fn insert_sorted_u16(v: &mut Vec<u16>, x: u16)
    requires
        sorted_strict_u16(old(v)@),
    ensures
        sorted_strict_u16(final(v)@),
        forall|p: u16| final(v)@.contains(p) <==> (old(v)@.contains(p) || p == x),
        final(v)@ == sorted_insert(old(v)@, x),
{
    let ghost orig = v@;
    let mut i: usize = 0;
    while i < v.len() && v[i] < x
        invariant
            i <= v.len(),
            v@ == orig,
            forall|j: int| 0 <= j < i ==> v@[j] < x,
        decreases v.len() - i,
    {
        i += 1;
    }
    if i < v.len() && v[i] == x {
        proof {
            assert(v@.contains(v@[i as int]));
            lemma_sorted_insert_at(orig, x, i as int);
        }
        return ;
    }
    proof {
        assert(i == v@.len() || v@[i as int] > x);
        lemma_sorted_insert_at(orig, x, i as int);
    }
    v.insert(i, x);
    proof {
        assert(v@ =~= orig.take(i as int) + seq![x] + orig.skip(i as int));
        let r = v@;
        assert forall|a: int, b: int| 0 <= a < b < r.len() implies r[a] < r[b] by {
            if a < i && b < i {
            } else if a < i && b == i {
            } else if a < i && b > i {
                assert(r[b] == orig[b - 1]);
            } else if a == i {
                assert(r[b] == orig[b - 1]);
            } else {
                assert(r[a] == orig[a - 1]);
                assert(r[b] == orig[b - 1]);
            }
        }
        assert forall|p: u16| r.contains(p) implies (orig.contains(p) || p == x) by {
            let k = choose|k: int| 0 <= k < r.len() && r[k] == p;
            if k < i {
                assert(orig[k] == p);
            } else if k > i {
                assert(orig[k - 1] == p);
            }
        }
        assert forall|p: u16| orig.contains(p) || p == x implies r.contains(p) by {
            if orig.contains(p) {
                let k = choose|k: int| 0 <= k < orig.len() && orig[k] == p;
                if k < i {
                    assert(r[k] == p);
                } else {
                    assert(r[k + 1] == p);
                }
            } else {
                assert(r[i as int] == x);
            }
        }
    }
}

/// Insert a string into a sorted duplicate-free vector, keeping it so.
pub fn insert_sorted_string(v: &mut Vec<String>, x: String)
    requires
        sorted_strict_str(old(v).deep_view()),
    ensures
        sorted_strict_str(final(v).deep_view()),
        forall|p: Seq<char>|
            final(v).deep_view().contains(p) <==> (old(v).deep_view().contains(p) || p == x@),
{
    let ghost orig = v.deep_view();
    let mut i: usize = 0;
    while i < v.len() && !str_le(x.as_str(), v[i].as_str())
        invariant
            i <= v.len(),
            v.deep_view() == orig,
            orig.len() == v@.len(),
            forall|j: int| 0 <= j < i ==> !lex_le(x@, orig[j]) && lex_le(orig[j], x@),
        decreases v.len() - i,
    {
        proof {
            assert(orig[i as int] == v@[i as int]@);
            lemma_lex_le_total(x@, orig[i as int]);
        }
        i += 1;
    }
    proof {
        if i < orig.len() {
            assert(orig[i as int] == v@[i as int]@);
        }
    }
    if i < v.len() && str_eq(x.as_str(), v[i].as_str()) {
        proof {
            assert(orig.contains(orig[i as int]));
        }
        return ;
    }
    proof {
        assert(i == orig.len() || (lex_le(x@, orig[i as int]) && x@ != orig[i as int]));
    }
    v.insert(i, x);
    proof {
        let r = v.deep_view();
        assert(r.len() == orig.len() + 1);
        assert forall|a: int| 0 <= a < r.len() implies r[a] == (if a < i {
            orig[a]
        } else if a == i {
            x@
        } else {
            orig[a - 1]
        }) by {
            assert(r[a] == v@[a]@);
            if a < i {
                assert(v@[a] == old(v)@[a]);
            } else if a > i {
                assert(v@[a] == old(v)@[a - 1]);
            }
        }
        assert forall|a: int, b: int| 0 <= a < b < r.len() implies lex_lt(r[a], r[b]) by {
            if a < i && b == i {
                lemma_lex_le_total(x@, r[a]);
                if x@ == r[a] {
                    assert(!lex_le(x@, orig[a]));
                    lemma_lex_le_refl(x@);
                    assert(false);
                }
                assert(lex_lt(r[a], x@));
            } else if a < i && b > i {
            } else if a == i && b > i {
                assert(r[b] == orig[b - 1]);
                if i < orig.len() {
                    if b - 1 == i {
                        assert(lex_lt(x@, orig[b - 1]));
                    } else {
                        assert(lex_lt(orig[i as int], orig[b - 1]));
                        lemma_lex_le_trans(x@, orig[i as int], orig[b - 1]);
                        if x@ == orig[b - 1] {
                            lemma_lex_le_antisym(x@, orig[i as int]);
                        }
                    }
                }
            } else if a > i {
                assert(lex_lt(orig[a - 1], orig[b - 1]));
            }
        }
        assert forall|p: Seq<char>| r.contains(p) implies (orig.contains(p) || p == x@) by {
            let k = choose|k: int| 0 <= k < r.len() && r[k] == p;
            if k < i {
                assert(orig[k] == p);
            } else if k > i {
                assert(orig[k - 1] == p);
            }
        }
        assert forall|p: Seq<char>| orig.contains(p) || p == x@ implies r.contains(p) by {
            if orig.contains(p) {
                let k = choose|k: int| 0 <= k < orig.len() && orig[k] == p;
                if k < i {
                    assert(r[k] == p);
                } else {
                    assert(r[k + 1] == p);
                }
            } else {
                assert(r[i as int] == x@);
            }
        }
    }
}

} // verus!
