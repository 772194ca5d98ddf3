//! String utilities: lexicographic ordering on character sequences, decimal
//! rendering of integers, and insertion into sorted string lists.

use vstd::prelude::*;
use vstd::relations::{sorted_by, total_ordering};
use vstd::multiset::Multiset;
use vstd::seq_lib::lemma_multiset_commutative;
use vstd::string::StrSliceExecFns;
use vstd::string::StringExecFns;

verus! {

/// Lexicographic "less than or equal" over character sequences, comparing
/// code points position by position; a prefix sorts before its extensions.
pub open spec fn lex_le(a: Seq<char>, b: Seq<char>) -> bool
    decreases a.len(),
{
    if a.len() == 0 {
        true
    } else if b.len() == 0 {
        false
    } else if (a[0] as u32) < (b[0] as u32) {
        true
    } else if (a[0] as u32) > (b[0] as u32) {
        false
    } else {
        lex_le(a.drop_first(), b.drop_first())
    }
}

/// The ordering relation as a value, for use with vstd's sorting vocabulary.
pub open spec fn lex_leq() -> spec_fn(Seq<char>, Seq<char>) -> bool {
    |a: Seq<char>, b: Seq<char>| lex_le(a, b)
}

/// Every character sequence compares less-or-equal to itself.
pub proof fn lemma_lex_le_reflexive(a: Seq<char>)
    ensures
        lex_le(a, a),
    decreases a.len(),
{
    if a.len() > 0 {
        lemma_lex_le_reflexive(a.drop_first());
    }
}

/// Two sequences each less-or-equal to the other are equal.
pub proof fn lemma_lex_le_antisymmetric(a: Seq<char>, b: Seq<char>)
    requires
        lex_le(a, b),
        lex_le(b, a),
    ensures
        a == b,
    decreases a.len(),
{
    if a.len() == 0 {
        assert(b.len() == 0);
        assert(a =~= b);
    } else {
        lemma_lex_le_antisymmetric(a.drop_first(), b.drop_first());
        assert((a[0] as u32) == (b[0] as u32));
        vstd::utf8::char_u32_cast(a[0], a[0] as u32);
        vstd::utf8::char_u32_cast(b[0], b[0] as u32);
        assert(a[0] == b[0]);
        assert(a =~= seq![a[0]] + a.drop_first());
        assert(b =~= seq![b[0]] + b.drop_first());
        assert(a =~= b);
    }
}

/// The ordering is transitive.
pub proof fn lemma_lex_le_transitive(a: Seq<char>, b: Seq<char>, c: Seq<char>)
    requires
        lex_le(a, b),
        lex_le(b, c),
    ensures
        lex_le(a, c),
    decreases a.len(),
{
    if a.len() > 0 && b.len() > 0 && c.len() > 0 {
        if (a[0] as u32) == (b[0] as u32) && b[0] as u32 == c[0] as u32 {
            lemma_lex_le_transitive(a.drop_first(), b.drop_first(), c.drop_first());
        }
    }
}

/// Any two sequences are comparable.
pub proof fn lemma_lex_le_connected(a: Seq<char>, b: Seq<char>)
    ensures
        lex_le(a, b) || lex_le(b, a),
    decreases a.len(),
{
    if a.len() > 0 && b.len() > 0 && (a[0] as u32) == (b[0] as u32) {
        lemma_lex_le_connected(a.drop_first(), b.drop_first());
    }
}

/// The lexicographic ordering is a total ordering in the sense of vstd.
pub proof fn lemma_lex_leq_total_ordering()
    ensures
        total_ordering(lex_leq()),
{
    let leq = lex_leq();
    assert forall|a: Seq<char>| #[trigger] leq(a, a) by {
        lemma_lex_le_reflexive(a);
    }
    assert forall|a: Seq<char>, b: Seq<char>| #[trigger] leq(a, b) && #[trigger] leq(b, a)
        implies a == b by {
        lemma_lex_le_antisymmetric(a, b);
    }
    assert forall|a: Seq<char>, b: Seq<char>, c: Seq<char>|
        #[trigger] leq(a, b) && #[trigger] leq(b, c) implies leq(a, c) by {
        lemma_lex_le_transitive(a, b, c);
    }
    assert forall|a: Seq<char>, b: Seq<char>| !(#[trigger] leq(a, b)) implies leq(b, a) by {
        lemma_lex_le_connected(a, b);
    }
}

/// Decide the lexicographic ordering on two string slices.
pub fn str_lex_le(a: &str, b: &str) -> (r: bool)
    ensures
        r == lex_le(a@, b@),
{
    let a_len: usize = a.unicode_len();
    let b_len: usize = b.unicode_len();
    let mut i: usize = 0;
    proof {
        assert(a@.skip(0) =~= a@);
        assert(b@.skip(0) =~= b@);
    }
    loop
        invariant
            i <= a_len,
            i <= b_len,
            a_len == a@.len(),
            b_len == b@.len(),
            lex_le(a@, b@) == lex_le(a@.skip(i as int), b@.skip(i as int)),
        decreases a_len - i,
    {
        if i == a_len {
            assert(a@.skip(i as int).len() == 0);
            return true;
        }
        if i == b_len {
            assert(b@.skip(i as int).len() == 0);
            assert(a@.skip(i as int).len() > 0);
            return false;
        }
        let ac = a.get_char(i);
        let bc = b.get_char(i);
        proof {
            let sa = a@.skip(i as int);
            let sb = b@.skip(i as int);
            assert(sa[0] == a@[i as int]);
            assert(sb[0] == b@[i as int]);
            assert(sa.drop_first() =~= a@.skip(i as int + 1));
            assert(sb.drop_first() =~= b@.skip(i as int + 1));
        }
        if (ac as u32) < (bc as u32) {
            return true;
        }
        if (ac as u32) > (bc as u32) {
            return false;
        }
        i = i + 1;
    }
}

/// Decide equality of two string slices, as equality of their character
/// sequences.
pub fn str_eq(a: &str, b: &str) -> (r: bool)
    ensures
        r == (a@ == b@),
{
    let a_len: usize = a.unicode_len();
    let b_len: usize = b.unicode_len();
    if a_len != b_len {
        return false;
    }
    let mut i: usize = 0;
    while i < a_len
        invariant
            i <= a_len,
            a_len == a@.len(),
            b_len == b@.len(),
            a_len == b_len,
            forall|j: int| 0 <= j < i ==> a@[j] == b@[j],
        decreases a_len - i,
    {
        let ac = a.get_char(i);
        let bc = b.get_char(i);
        if ac != bc {
            return false;
        }
        i = i + 1;
    }
    proof {
        assert(a@ =~= b@);
    }
    true
}

/// Clone a list of strings, keeping the character sequences.
pub fn clone_strings(v: &Vec<String>) -> (r: Vec<String>)
    ensures
        r.deep_view() == v.deep_view(),
{
    let mut r: Vec<String> = Vec::new();
    let mut i: usize = 0;
    while i < v.len()
        invariant
            i <= v.len(),
            r.deep_view() =~= v.deep_view().take(i as int),
        decreases v.len() - i,
    {
        let c = v[i].clone();
        proof {
            assert(c@ == v.deep_view()[i as int]);
        }
        let ghost before = r@;
        let ghost before_dv = r.deep_view();
        r.push(c);
        proof {
            assert(r@ == before.push(c));
            assert(before_dv.len() == before.len());
            let dv = r.deep_view();
            let goal = v.deep_view().take(i as int + 1);
            assert(dv.len() == before.len() + 1);
            assert(goal.len() == i as int + 1);
            assert forall|j: int| 0 <= j < dv.len() implies dv[j] == goal[j] by {
                assert(dv[j] == r@[j]@);
                if j < before.len() {
                    assert(r@[j] == before[j]);
                    assert(before_dv[j] == before[j]@);
                    assert(before_dv[j] == v.deep_view().take(i as int)[j]);
                } else {
                    assert(r@[j] == c);
                }
            }
            assert(dv =~= goal);
        }
        i = i + 1;
    }
    proof {
        assert(r.deep_view() =~= v.deep_view());
    }
    r
}

/// The decimal digit character for a value below ten.
pub open spec fn digit_char(d: nat) -> char
    recommends
        d < 10,
{
    if d == 0 { '0' }
    else if d == 1 { '1' }
    else if d == 2 { '2' }
    else if d == 3 { '3' }
    else if d == 4 { '4' }
    else if d == 5 { '5' }
    else if d == 6 { '6' }
    else if d == 7 { '7' }
    else if d == 8 { '8' }
    else { '9' }
}

/// The decimal rendering of a natural number, most significant digit first,
/// without leading zeros (zero itself renders as a single digit).
pub open spec fn dec_digits(n: nat) -> Seq<char>
    decreases n,
{
    if n < 10 {
        seq![digit_char(n)]
    } else {
        dec_digits(n / 10) + seq![digit_char(n % 10)]
    }
}

/// The digit character of a value below ten, as a string slice.
fn digit_str(d: u64) -> (r: &'static str)
    requires
        d < 10,
    ensures
        r@ == seq![digit_char(d as nat)],
{
    proof {
        reveal_strlit("0");
        reveal_strlit("1");
        reveal_strlit("2");
        reveal_strlit("3");
        reveal_strlit("4");
        reveal_strlit("5");
        reveal_strlit("6");
        reveal_strlit("7");
        reveal_strlit("8");
        reveal_strlit("9");
    }
    let r = if d == 0 { "0" }
    else if d == 1 { "1" }
    else if d == 2 { "2" }
    else if d == 3 { "3" }
    else if d == 4 { "4" }
    else if d == 5 { "5" }
    else if d == 6 { "6" }
    else if d == 7 { "7" }
    else if d == 8 { "8" }
    else { "9" };
    proof {
        assert(r@ =~= seq![digit_char(d as nat)]);
    }
    r
}

/// Render a number in decimal.
pub fn u64_to_dec(n: u64) -> (s: String)
    ensures
        s@ == dec_digits(n as nat),
    decreases n,
{
    if n < 10 {
        String::from_str(digit_str(n))
    } else {
        let mut s = u64_to_dec(n / 10);
        s.append(digit_str(n % 10));
        s
    }
}

/// Insert a string into a list sorted by [`lex_le`], keeping it sorted.
pub fn insert_sorted(v: &mut Vec<String>, x: String)
    requires
        sorted_by(old(v).deep_view(), lex_leq()),
    ensures
        sorted_by(final(v).deep_view(), lex_leq()),
        final(v).deep_view().to_multiset() == old(v).deep_view().to_multiset().insert(x@),
{
    let ghost orig = v.deep_view();
    let ghost xv = x@;
    let mut pos: usize = 0;
    let mut found: bool = false;
    while pos < v.len() && !found
        invariant
            pos <= v.len(),
            v.deep_view() == orig,
            xv == x@,
            sorted_by(orig, lex_leq()),
            forall|j: int| 0 <= j < pos ==> lex_le(#[trigger] orig[j], xv),
            found ==> pos < v.len() && lex_le(xv, orig[pos as int]),
        decreases v.len() - pos + (if found { 0int } else { 1int }),
    {
        proof {
            assert(orig[pos as int] == v@[pos as int]@);
        }
        let le = str_lex_le(v[pos].as_str(), x.as_str());
        if le {
            pos = pos + 1;
        } else {
            proof {
                lemma_lex_le_connected(orig[pos as int], xv);
            }
            found = true;
        }
    }
    proof {
        assert forall|j: int| pos <= j < orig.len() implies lex_le(xv, #[trigger] orig[j]) by {
            assert(lex_le(xv, orig[pos as int]));
            if j > pos {
                assert(lex_leq()(orig[pos as int], orig[j]));
                lemma_lex_le_transitive(xv, orig[pos as int], orig[j]);
            }
        }
    }
    let ghost prev = v@;
    v.insert(pos, x);
    proof {
        let after = v.deep_view();
        assert(after =~= orig.insert(pos as int, xv)) by {
            orig.insert_ensures(pos as int, xv);
            prev.insert_ensures(pos as int, x);
            assert forall|j: int| 0 <= j < after.len() implies
                after[j] == orig.insert(pos as int, xv)[j] by {
                assert(after[j] == v@[j]@);
            }
        };
        lemma_insert_sorted_stays_sorted(orig, pos as int, xv);
        lemma_to_multiset_insert(orig, pos as int, xv);
    }
}

/// Inserting an element at a position bounded by smaller entries on the left
/// and larger ones on the right keeps a sequence sorted.
proof fn lemma_insert_sorted_stays_sorted(s: Seq<Seq<char>>, pos: int, x: Seq<char>)
    requires
        sorted_by(s, lex_leq()),
        0 <= pos <= s.len(),
        forall|j: int| 0 <= j < pos ==> lex_le(#[trigger] s[j], x),
        forall|j: int| pos <= j < s.len() ==> lex_le(x, #[trigger] s[j]),
    ensures
        sorted_by(s.insert(pos, x), lex_leq()),
{
    let t = s.insert(pos, x);
    assert forall|i: int, j: int| 0 <= i < j < t.len() implies lex_leq()(t[i], t[j]) by {
        if i < pos && j < pos {
            assert(t[i] == s[i] && t[j] == s[j]);
        } else if i < pos && j == pos {
            assert(t[i] == s[i]);
        } else if i < pos && j > pos {
            assert(t[i] == s[i] && t[j] == s[j - 1]);
            if j - 1 >= pos {
                lemma_lex_le_transitive(s[i], x, s[j - 1]);
            }
        } else if i == pos {
            assert(t[j] == s[j - 1]);
        } else {
            assert(t[i] == s[i - 1] && t[j] == s[j - 1]);
        }
    }
}

/// Extending a prefix by one element extends its filtered image by that
/// element when the predicate holds of it.
pub proof fn lemma_filter_take_one_more<A>(s: Seq<A>, i: int, p: spec_fn(A) -> bool)
    requires
        0 <= i < s.len(),
    ensures
        s.take(i + 1).filter(p) == s.take(i).filter(p) + (if p(s[i]) {
            seq![s[i]]
        } else {
            Seq::<A>::empty()
        }),
{
    reveal(Seq::filter);
    assert(s.take(i + 1).drop_last() =~= s.take(i));
    assert(s.take(i + 1).last() == s[i]);
    if p(s[i]) {
        assert(s.take(i + 1).filter(p) =~= s.take(i).filter(p) + seq![s[i]]);
    } else {
        assert(s.take(i + 1).filter(p) =~= s.take(i).filter(p) + Seq::<A>::empty());
    }
}

/// Filtering a one-element sequence keeps or drops that element.
pub proof fn lemma_filter_singleton<A>(x: A, p: spec_fn(A) -> bool)
    ensures
        seq![x].filter(p) == (if p(x) {
            seq![x]
        } else {
            Seq::<A>::empty()
        }),
{
    reveal_with_fuel(Seq::filter, 2);
    assert(seq![x].drop_last() =~= Seq::<A>::empty());
    if p(x) {
        assert(seq![x].filter(p) =~= seq![x]);
    } else {
        assert(seq![x].filter(p) =~= Seq::<A>::empty());
    }
}

/// A filtered sequence splits at any position into the filtered prefix and
/// the filtered suffix.
pub proof fn lemma_filter_split<A>(s: Seq<A>, i: int, p: spec_fn(A) -> bool)
    requires
        0 <= i <= s.len(),
    ensures
        s.filter(p) == s.take(i).filter(p) + s.skip(i).filter(p),
{
    assert(s =~= s.take(i) + s.skip(i));
    Seq::filter_distributes_over_add(s.take(i), s.skip(i), p);
}

/// Every element of a filtered sequence is an element of the sequence.
pub proof fn lemma_filter_element_of<A>(s: Seq<A>, p: spec_fn(A) -> bool)
    ensures
        forall|i: int| 0 <= i < s.filter(p).len() ==> s.contains(#[trigger] s.filter(p)[i]),
    decreases s.len(),
{
    reveal(Seq::filter);
    if s.len() > 0 {
        lemma_filter_element_of(s.drop_last(), p);
        let f = s.filter(p);
        let fd = s.drop_last().filter(p);
        assert forall|i: int| 0 <= i < f.len() implies s.contains(f[i]) by {
            if i < fd.len() {
                assert(f[i] == fd[i]);
                assert(s.drop_last().contains(fd[i]));
                let k = choose|k: int| 0 <= k < s.drop_last().len() && s.drop_last()[k] == fd[i];
                assert(s[k] == f[i]);
            } else {
                assert(f[i] == s.last());
                assert(s[s.len() - 1] == f[i]);
            }
        }
    }
}

/// Inserting into a sequence inserts into its multiset.
pub proof fn lemma_to_multiset_insert<A>(s: Seq<A>, pos: int, x: A)
    requires
        0 <= pos <= s.len(),
    ensures
        s.insert(pos, x).to_multiset() == s.to_multiset().insert(x),
{
    broadcast use vstd::seq_lib::group_to_multiset_ensures;

    let left = s.take(pos);
    let right = s.skip(pos);
    assert(s =~= left + right);
    assert(s.insert(pos, x) =~= left + (seq![x] + right));
    lemma_multiset_commutative(left, right);
    lemma_multiset_commutative(left, seq![x] + right);
    lemma_multiset_commutative(seq![x], right);
    assert(seq![x] =~= Seq::<A>::empty().push(x));
    assert(seq![x].to_multiset() =~= Multiset::<A>::empty().insert(x));
    assert(s.insert(pos, x).to_multiset() =~= s.to_multiset().insert(x));
}

} // verus!
