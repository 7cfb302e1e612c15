//! Orders used by the services: byte-wise lexicographic order of strings
//! (the order of `String`'s `Ord`), and the stable order of ranked items.
use vstd::prelude::*;
use vstd::relations::*;
use vstd::utf8::*;

verus! {

/// Lexicographic "less than or equal" on byte sequences.
pub open spec fn lex_le(a: Seq<u8>, b: Seq<u8>) -> bool
    decreases a.len(),
{
    if a.len() == 0 {
        true
    } else if b.len() == 0 {
        false
    } else if a[0] < b[0] {
        true
    } else if a[0] > b[0] {
        false
    } else {
        lex_le(a.drop_first(), b.drop_first())
    }
}

/// The order of two strings, given by their views: byte-wise comparison of
/// their UTF-8 encodings.
pub open spec fn str_le(a: Seq<char>, b: Seq<char>) -> bool {
    lex_le(encode_utf8(a), encode_utf8(b))
}

pub proof fn lemma_lex_le_reflexive(a: Seq<u8>)
    ensures
        lex_le(a, a),
    decreases a.len(),
{
    if a.len() > 0 {
        lemma_lex_le_reflexive(a.drop_first());
    }
}

pub proof fn lemma_lex_le_total(a: Seq<u8>, b: Seq<u8>)
    ensures
        lex_le(a, b) || lex_le(b, a),
    decreases a.len(),
{
    if a.len() > 0 && b.len() > 0 && a[0] == b[0] {
        lemma_lex_le_total(a.drop_first(), b.drop_first());
    }
}

pub proof fn lemma_lex_le_antisymmetric(a: Seq<u8>, b: Seq<u8>)
    requires
        lex_le(a, b),
        lex_le(b, a),
    ensures
        a == b,
    decreases a.len(),
{
    if a.len() == 0 {
        assert(b.len() == 0);
        assert(a =~= b);
    } else {
        lemma_lex_le_antisymmetric(a.drop_first(), b.drop_first());
        assert(a =~= seq![a[0]] + a.drop_first());
        assert(b =~= seq![b[0]] + b.drop_first());
    }
}

pub proof fn lemma_lex_le_transitive(a: Seq<u8>, b: Seq<u8>, c: Seq<u8>)
    requires
        lex_le(a, b),
        lex_le(b, c),
    ensures
        lex_le(a, c),
    decreases a.len(),
{
    if a.len() > 0 && b.len() > 0 && c.len() > 0 && a[0] == b[0] && b[0] == c[0] {
        lemma_lex_le_transitive(a.drop_first(), b.drop_first(), c.drop_first());
    }
}

/// `str_le` is a total order on string views.
pub proof fn lemma_str_le_total_ordering()
    ensures
        total_ordering(|a: Seq<char>, b: Seq<char>| str_le(a, b)),
{
    let r = |a: Seq<char>, b: Seq<char>| str_le(a, b);
    assert forall|a: Seq<char>| #[trigger] r(a, a) by {
        lemma_lex_le_reflexive(encode_utf8(a));
    }
    assert forall|a: Seq<char>, b: Seq<char>| #[trigger] r(a, b) && #[trigger] r(b, a) implies a
        == b by {
        lemma_lex_le_antisymmetric(encode_utf8(a), encode_utf8(b));
        encode_utf8_decode_utf8(a);
        encode_utf8_decode_utf8(b);
    }
    assert forall|a: Seq<char>, b: Seq<char>, c: Seq<char>| #[trigger] r(a, b) && #[trigger] r(
        b,
        c,
    ) implies r(a, c) by {
        lemma_lex_le_transitive(encode_utf8(a), encode_utf8(b), encode_utf8(c));
    }
    assert forall|a: Seq<char>, b: Seq<char>| #[trigger] r(a, b) || #[trigger] r(b, a) by {
        lemma_lex_le_total(encode_utf8(a), encode_utf8(b));
    }
}

/// Compares two byte slices lexicographically.
pub fn bytes_le(a: &[u8], b: &[u8]) -> (r: bool)
    ensures
        r == lex_le(a@, b@),
{
    let mut i: usize = 0;
    assert(a@.skip(0) =~= a@);
    assert(b@.skip(0) =~= b@);
    while i < a.len() && i < b.len()
        invariant
            i <= a@.len(),
            i <= b@.len(),
            lex_le(a@, b@) == lex_le(a@.skip(i as int), b@.skip(i as int)),
        decreases a.len() - i,
    {
        if a[i] < b[i] {
            return true;
        }
        if a[i] > b[i] {
            return false;
        }
        assert(a@.skip(i as int).drop_first() =~= a@.skip(i + 1));
        assert(b@.skip(i as int).drop_first() =~= b@.skip(i + 1));
        i = i + 1;
    }
    i == a.len()
}

/// Compares two strings the way `String`'s `Ord` does: byte by byte.
pub fn string_le(a: &String, b: &String) -> (r: bool)
    ensures
        r == str_le(a@, b@),
{
    bytes_le(a.as_str().as_bytes(), b.as_str().as_bytes())
}

/// The order used to sort ids, as a relation.
pub open spec fn id_order() -> spec_fn(Seq<char>, Seq<char>) -> bool {
    |a: Seq<char>, b: Seq<char>| str_le(a, b)
}

/// Views of a vector of strings.
pub open spec fn views(v: Seq<String>) -> Seq<Seq<char>> {
    v.map_values(|s: String| s@)
}

/// Sorts strings in ascending byte-wise order (as `sort` on `Vec<String>` does).
pub fn sort_strings(v: Vec<String>) -> (r: Vec<String>)
    ensures
        sorted_by(views(r@), id_order()),
        views(r@).to_multiset() == views(v@).to_multiset(),
{
    broadcast use vstd::seq_lib::group_to_multiset_ensures;

    proof {
        lemma_str_le_total_ordering();
    }
    let ghost rel = id_order();
    let mut r: Vec<String> = Vec::new();
    let ghost orig = v@;
    let mut i: usize = 0;
    let n: usize = v.len();
    let mut rest = v;
    while rest.len() > 0
        invariant
            total_ordering(rel),
            rel == id_order(),
            i + rest@.len() == n,
            n == orig.len(),
            rest@ =~= orig.subrange(i as int, n as int),
            sorted_by(views(r@), rel),
            views(r@).to_multiset() == views(orig.take(i as int)).to_multiset(),
        decreases rest.len(),
    {
        let x = rest.remove(0);
        let mut j: usize = 0;
        while j < r.len() && string_le(&r[j], &x)
            invariant
                j <= r@.len(),
                forall|k: int| 0 <= k < j ==> str_le(#[trigger] r@[k]@, x@),
            decreases r.len() - j,
        {
            j = j + 1;
        }
        let ghost old_r = r@;
        r.insert(j, x);
        proof {
            assert(views(r@) =~= views(old_r).insert(j as int, x@));
            assert(orig.take(i + 1) =~= orig.take(i as int).push(x));
            assert(views(orig.take(i + 1)) =~= views(orig.take(i as int)).push(x@));
            vstd::seq_lib::to_multiset_insert(views(old_r), j as int, x@);
            vstd::seq_lib::to_multiset_build(views(orig.take(i as int)), x@);
            assert forall|a: int, b: int| 0 <= a < b < views(r@).len() implies #[trigger] rel(
                views(r@)[a],
                views(r@)[b],
            ) by {
                if b < j {
                } else if a < j && b == j {
                } else if a < j {
                    assert(rel(old_r[a]@, x@));
                    assert(rel(views(old_r)[a], views(old_r)[b - 1]));
                } else if a == j {
                    if j < old_r.len() {
                        assert(!str_le(old_r[j as int]@, x@));
                        assert(rel(views(old_r)[j as int], x@) || rel(x@, views(old_r)[j as int]));
                        assert(rel(x@, old_r[j as int]@));
                        if b - 1 > j {
                            assert(rel(views(old_r)[j as int], views(old_r)[b - 1]));
                        }
                    }
                } else {
                    assert(rel(views(old_r)[a - 1], views(old_r)[b - 1]));
                }
            }
        }
        i = i + 1;
    }
    proof {
        assert(orig.take(n as int) =~= orig);
    }
    r
}

} // verus!
