//! Lexicographic ordering of strings and optional strings, used to keep the
//! lockfile and the configuration file list in a canonical order.

use vstd::prelude::*;
use vstd::multiset::Multiset;

verus! {

/// Two characters with the same code point are the same character.
pub proof fn lemma_char_cast_injective(x: char, y: char)
    requires
        x as u32 == y as u32,
    ensures
        x == y,
{
    vstd::utf8::char_u32_cast(x, y as u32);
    vstd::utf8::char_u32_cast(y, y as u32);
}

/// Three-way lexicographic comparison of two character sequences:
/// -1 when `a` sorts strictly before `b`, 0 when they are equal,
/// 1 when `a` sorts strictly after `b`. Characters compare by code point.
pub open spec fn lex_cmp(a: Seq<char>, b: Seq<char>) -> int
    decreases a.len(),
{
    if a.len() == 0 && b.len() == 0 {
        0
    } else if a.len() == 0 {
        -1
    } else if b.len() == 0 {
        1
    } else if (a[0] as u32) < (b[0] as u32) {
        -1
    } else if (a[0] as u32) > (b[0] as u32) {
        1
    } else {
        lex_cmp(a.drop_first(), b.drop_first())
    }
}

/// Three-way comparison of optional character sequences; an absent value
/// sorts before any present one.
pub open spec fn opt_lex_cmp(a: Option<Seq<char>>, b: Option<Seq<char>>) -> int {
    match (a, b) {
        (Option::None, Option::None) => 0,
        (Option::None, Option::Some(_)) => -1,
        (Option::Some(_), Option::None) => 1,
        (Option::Some(x), Option::Some(y)) => lex_cmp(x, y),
    }
}

/// The comparison returns zero exactly on equal sequences.
pub proof fn lemma_lex_cmp_eq(a: Seq<char>, b: Seq<char>)
    ensures
        lex_cmp(a, b) == 0 <==> a =~= b,
    decreases a.len(),
{
    if a.len() != 0 && b.len() != 0 && (a[0] as u32) == (b[0] as u32) {
        lemma_char_cast_injective(a[0], b[0]);
        lemma_lex_cmp_eq(a.drop_first(), b.drop_first());
        if lex_cmp(a, b) == 0 {
            assert(a.drop_first() =~= b.drop_first());
            assert(a =~= b) by {
                assert(a.len() == b.len());
                assert forall|i: int| 0 <= i < a.len() implies a[i] == b[i] by {
                    if i > 0 {
                        assert(a.drop_first()[i - 1] == b.drop_first()[i - 1]);
                    }
                }
            }
        }
        if a =~= b {
            assert(a.drop_first() =~= b.drop_first());
        }
    }
}

/// Swapping the arguments negates the comparison.
pub proof fn lemma_lex_cmp_antisym(a: Seq<char>, b: Seq<char>)
    ensures
        lex_cmp(b, a) == -lex_cmp(a, b),
    decreases a.len(),
{
    if a.len() != 0 && b.len() != 0 && (a[0] as u32) == (b[0] as u32) {
        lemma_lex_cmp_antisym(a.drop_first(), b.drop_first());
    }
}

/// The order is transitive.
pub proof fn lemma_lex_cmp_trans(a: Seq<char>, b: Seq<char>, c: Seq<char>)
    requires
        lex_cmp(a, b) <= 0,
        lex_cmp(b, c) <= 0,
    ensures
        lex_cmp(a, c) <= 0,
        lex_cmp(a, b) < 0 || lex_cmp(b, c) < 0 ==> lex_cmp(a, c) < 0,
    decreases a.len(),
{
    lemma_lex_cmp_eq(a, b);
    lemma_lex_cmp_eq(b, c);
    lemma_lex_cmp_eq(a, c);
    if a.len() != 0 && b.len() != 0 && c.len() != 0 {
        if (a[0] as u32) == (b[0] as u32) && (b[0] as u32) == (c[0] as u32) {
            lemma_lex_cmp_trans(a.drop_first(), b.drop_first(), c.drop_first());
        }
    }
}

pub proof fn lemma_opt_lex_cmp_eq(a: Option<Seq<char>>, b: Option<Seq<char>>)
    ensures
        opt_lex_cmp(a, b) == 0 <==> (a matches Option::Some(x) && b matches Option::Some(y)
            && x =~= y) || (a is None && b is None),
{
    if a is Some && b is Some {
        lemma_lex_cmp_eq(a->0, b->0);
    }
}

/// Swapping the arguments negates the comparison of optional sequences.
pub proof fn lemma_opt_lex_cmp_antisym(a: Option<Seq<char>>, b: Option<Seq<char>>)
    ensures
        opt_lex_cmp(b, a) == -opt_lex_cmp(a, b),
{
    if a is Some && b is Some {
        lemma_lex_cmp_antisym(a->0, b->0);
    }
}

/// The order on optional sequences is transitive.
pub proof fn lemma_opt_lex_cmp_trans(a: Option<Seq<char>>, b: Option<Seq<char>>, c: Option<
    Seq<char>,
>)
    requires
        opt_lex_cmp(a, b) <= 0,
        opt_lex_cmp(b, c) <= 0,
    ensures
        opt_lex_cmp(a, c) <= 0,
        opt_lex_cmp(a, b) < 0 || opt_lex_cmp(b, c) < 0 ==> opt_lex_cmp(a, c) < 0,
{
    if a is Some && b is Some && c is Some {
        lemma_lex_cmp_trans(a->0, b->0, c->0);
    }
}

/// One step of the comparison: equal leading characters leave the outcome
/// to the remainders.
pub proof fn lemma_lex_cmp_skip(a: Seq<char>, b: Seq<char>, i: int)
    requires
        0 <= i <= a.len(),
        0 <= i <= b.len(),
        forall|j: int| 0 <= j < i ==> a[j] == b[j],
    ensures
        lex_cmp(a, b) == lex_cmp(a.skip(i), b.skip(i)),
    decreases i,
{
    if i > 0 {
        assert(a.len() != 0 && b.len() != 0 && a[0] == b[0]);
        assert(a.drop_first().skip(i - 1) =~= a.skip(i));
        assert(b.drop_first().skip(i - 1) =~= b.skip(i));
        assert(forall|j: int|
            0 <= j < i - 1 ==> #[trigger] a.drop_first()[j] == b.drop_first()[j]);
        lemma_lex_cmp_skip(a.drop_first(), b.drop_first(), i - 1);
    } else {
        assert(a.skip(0) =~= a);
        assert(b.skip(0) =~= b);
    }
}

/// Compares two strings lexicographically by character code point.
pub fn str_compare(a: &str, b: &str) -> (r: i8)
    ensures
        r as int == lex_cmp(a@, b@),
{
    let a_len = a.unicode_len();
    let b_len = b.unicode_len();
    let mut i: usize = 0;
    while i < a_len && i < b_len
        invariant
            i <= a_len,
            i <= b_len,
            a_len == a@.len(),
            b_len == b@.len(),
            forall|j: int| 0 <= j < i ==> a@[j] == b@[j],
        decreases a_len - i,
    {
        proof {
            lemma_lex_cmp_skip(a@, b@, i as int);
        }
        let ca = a.get_char(i);
        let cb = b.get_char(i);
        if (ca as u32) < (cb as u32) {
            return -1;
        }
        if (ca as u32) > (cb as u32) {
            return 1;
        }
        proof {
            lemma_char_cast_injective(ca, cb);
        }
        i = i + 1;
    }
    proof {
        lemma_lex_cmp_skip(a@, b@, i as int);
    }
    if a_len == b_len {
        proof {
            lemma_lex_cmp_eq(a@.skip(i as int), b@.skip(i as int));
            assert(a@.skip(i as int) =~= b@.skip(i as int));
        }
        0
    } else if a_len < b_len {
        -1
    } else {
        1
    }
}

/// Compares two optional strings; `None` sorts first.
pub fn opt_str_compare(a: &Option<String>, b: &Option<String>) -> (r: i8)
    ensures
        r as int == opt_lex_cmp(view_opt(a), view_opt(b)),
{
    match (a, b) {
        (Option::None, Option::None) => 0,
        (Option::None, Option::Some(_)) => -1,
        (Option::Some(_), Option::None) => 1,
        (Option::Some(x), Option::Some(y)) => str_compare(x.as_str(), y.as_str()),
    }
}

/// The view of an optional string as an optional character sequence.
pub open spec fn view_opt(o: &Option<String>) -> Option<Seq<char>> {
    match o {
        Option::None => Option::None,
        Option::Some(s) => Option::Some(s@),
    }
}

/// The string views are in lexicographic order.
pub open spec fn strings_sorted(s: Seq<Seq<char>>) -> bool {
    forall|i: int, j: int| 0 <= i <= j < s.len() ==> lex_cmp(s[i], s[j]) <= 0
}

/// The views of a batch of strings.
pub open spec fn names_view(s: Seq<String>) -> Seq<Seq<char>> {
    s.map_values(|x: String| x@)
}

/// Inserts one string into an ordered batch, keeping it ordered.
fn insert_sorted_string(v: &mut Vec<String>, x: String)
    requires
        strings_sorted(names_view(old(v)@)),
    ensures
        strings_sorted(names_view(final(v)@)),
        names_view(final(v)@).to_multiset() == names_view(old(v)@).to_multiset().insert(x@),
{
    broadcast use vstd::seq_lib::to_multiset_insert;

    let mut idx: usize = 0;
    while idx < v.len() && str_compare(v[idx].as_str(), x.as_str()) < 0
        invariant
            idx <= v@.len(),
            strings_sorted(names_view(v@)),
            v@ == old(v)@,
            forall|j: int| 0 <= j < idx ==> lex_cmp(names_view(v@)[j], x@) < 0,
        decreases v@.len() - idx,
    {
        proof {
            assert(names_view(v@)[idx as int] == v@[idx as int]@);
        }
        idx = idx + 1;
    }
    proof {
        if idx < v@.len() {
            assert(names_view(v@)[idx as int] == v@[idx as int]@);
            lemma_lex_cmp_antisym(v@[idx as int]@, x@);
        }
        let s0 = names_view(v@);
        let s1 = names_view(v@.insert(idx as int, x));
        assert(s1 =~= s0.insert(idx as int, x@)) by {
            v@.insert_ensures(idx as int, x);
            s0.insert_ensures(idx as int, x@);
            assert forall|j: int| 0 <= j < s1.len() implies s1[j] == s0.insert(
                idx as int,
                x@,
            )[j] by {
                assert(s1[j] == v@.insert(idx as int, x)[j]@);
            }
        }
        s0.insert_ensures(idx as int, x@);
        assert forall|i: int, j: int| 0 <= i <= j < s1.len() implies lex_cmp(s1[i], s1[j])
            <= 0 by {
            lemma_lex_cmp_eq(x@, x@);
            if i < idx && j == idx {
                assert(s1[i] == s0[i] && s1[j] == x@);
            } else if i == idx && j > idx {
                assert(s1[i] == x@ && s1[j] == s0[j - 1]);
                lemma_lex_cmp_trans(x@, s0[idx as int], s0[j - 1]);
            } else if i < idx && j > idx {
                assert(s1[i] == s0[i] && s1[j] == s0[j - 1]);
                lemma_lex_cmp_trans(x@, s0[idx as int], s0[j - 1]);
                lemma_lex_cmp_trans(s0[i], x@, s0[j - 1]);
            } else if i != idx && j != idx {
                assert(s1[i] == if i < idx { s0[i] } else { s0[i - 1] });
                assert(s1[j] == if j < idx { s0[j] } else { s0[j - 1] });
            }
        }
    }
    v.insert(idx, x);
}

/// Orders a batch of strings lexicographically.
pub fn sort_strings(mut v: Vec<String>) -> (r: Vec<String>)
    ensures
        strings_sorted(names_view(r@)),
        names_view(r@).to_multiset() == names_view(v@).to_multiset(),
{
    broadcast use vstd::seq_lib::group_to_multiset_ensures;

    let mut out: Vec<String> = Vec::new();
    let ghost orig = names_view(v@);
    proof {
        assert(names_view(out@) =~= Seq::<Seq<char>>::empty());
        assert(names_view(out@).to_multiset() =~= Multiset::empty());
    }
    while v.len() > 0
        invariant
            strings_sorted(names_view(out@)),
            names_view(out@).to_multiset().add(names_view(v@).to_multiset())
                == orig.to_multiset(),
        decreases v@.len(),
    {
        let ghost prev = names_view(v@);
        let x = v.pop().unwrap();
        proof {
            assert(names_view(v@) =~= prev.drop_last());
            assert(prev.drop_last().push(x@) =~= prev);
            vstd::seq_lib::to_multiset_build(prev.drop_last(), x@);
            assert(prev.drop_last().to_multiset().insert(x@) =~= prev.to_multiset());
        }
        insert_sorted_string(&mut out, x);
        proof {
            assert(names_view(out@).to_multiset().add(names_view(v@).to_multiset())
                =~= orig.to_multiset());
        }
    }
    proof {
        assert(names_view(v@) =~= Seq::<Seq<char>>::empty());
        assert(names_view(v@).to_multiset() =~= Multiset::empty());
        assert(names_view(out@).to_multiset() =~= orig.to_multiset());
    }
    out
}

} // verus!
