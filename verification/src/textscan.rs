//! Character-level text scanning: trimming, splitting, prefix handling, and
//! substring search, with Unicode character classes taken from the standard
//! library.

use vstd::prelude::*;
use vstd::string::StrSliceExecFns;
use vstd::string::StringExecFns;

verus! {

/// Whether a character is alphanumeric in the Unicode sense; what
/// `char::is_alphanumeric` returns.
pub uninterp spec fn is_alphanumeric_char(c: char) -> bool;

/// Whether a character is white space in the Unicode sense; what
/// `char::is_whitespace` returns.
pub uninterp spec fn is_whitespace_char(c: char) -> bool;

/// Relies on `char::is_alphanumeric`: the result depends on the character
/// alone; on ASCII it holds exactly of the letters and digits.
pub assume_specification[ char::is_alphanumeric ](c: char) -> (r: bool)
    ensures
        r == is_alphanumeric_char(c),
        (('a' as u32) <= (c as u32) && (c as u32) <= ('z' as u32)) || (('A' as u32) <= (c as u32)
            && (c as u32) <= ('Z' as u32)) || (('0' as u32) <= (c as u32) && (c as u32) <= ('9'
            as u32)) ==> r,
        (c as u32) < 128 && !((('a' as u32) <= (c as u32) && (c as u32) <= ('z' as u32)) || (('A'
            as u32) <= (c as u32) && (c as u32) <= ('Z' as u32)) || (('0' as u32) <= (c as u32)
            && (c as u32) <= ('9' as u32))) ==> !r,
;

/// Relies on `char::is_whitespace`: the result depends on the character
/// alone; on ASCII it holds exactly of space and the control characters from
/// horizontal tab to carriage return.
pub assume_specification[ char::is_whitespace ](c: char) -> (r: bool)
    ensures
        r == is_whitespace_char(c),
        (c as u32) == 32 || (9 <= (c as u32) && (c as u32) <= 13) ==> r,
        (c as u32) < 128 && !((c as u32) == 32 || (9 <= (c as u32) && (c as u32) <= 13)) ==> !r,
;

/// A sequence with its leading characters satisfying `p` removed.
pub open spec fn drop_leading(s: Seq<char>, p: spec_fn(char) -> bool) -> Seq<char>
    decreases s.len(),
{
    if s.len() > 0 && p(s[0]) {
        drop_leading(s.drop_first(), p)
    } else {
        s
    }
}

/// A sequence with its trailing characters satisfying `p` removed.
pub open spec fn drop_trailing(s: Seq<char>, p: spec_fn(char) -> bool) -> Seq<char>
    decreases s.len(),
{
    if s.len() > 0 && p(s.last()) {
        drop_trailing(s.drop_last(), p)
    } else {
        s
    }
}

/// The white-space predicate as a value.
pub open spec fn whitespace_pred() -> spec_fn(char) -> bool {
    |c: char| is_whitespace_char(c)
}

/// A sequence with leading and trailing white space removed; what `str::trim`
/// leaves.
pub open spec fn trim_spec(s: Seq<char>) -> Seq<char> {
    drop_trailing(drop_leading(s, whitespace_pred()), whitespace_pred())
}

/// The index of the first character satisfying `p`, or the length.
pub open spec fn find_first(s: Seq<char>, p: spec_fn(char) -> bool) -> int
    decreases s.len(),
{
    if s.len() == 0 {
        0
    } else if p(s[0]) {
        0
    } else {
        1 + find_first(s.drop_first(), p)
    }
}

/// The first index lies between zero and the length, and the characters
/// before it do not satisfy `p`, while the one at it (if any) does.
pub proof fn lemma_find_first_bounds(s: Seq<char>, p: spec_fn(char) -> bool)
    ensures
        0 <= find_first(s, p) <= s.len(),
        forall|j: int| 0 <= j < find_first(s, p) ==> !p(s[j]),
        find_first(s, p) < s.len() ==> p(s[find_first(s, p)]),
    decreases s.len(),
{
    if s.len() > 0 && !p(s[0]) {
        lemma_find_first_bounds(s.drop_first(), p);
        assert forall|j: int| 0 <= j < find_first(s, p) implies !p(s[j]) by {
            if j > 0 {
                assert(s.drop_first()[j - 1] == s[j]);
            }
        }
        if find_first(s, p) < s.len() {
            assert(s.drop_first()[find_first(s, p) - 1] == s[find_first(s, p)]);
        }
    }
}

/// A scan that saw no `p` up to `k`, and `p` (or the end) at `k`, found the
/// first index.
pub proof fn lemma_find_first_is(s: Seq<char>, p: spec_fn(char) -> bool, k: int)
    requires
        0 <= k <= s.len(),
        forall|j: int| 0 <= j < k ==> !p(#[trigger] s[j]),
        k < s.len() ==> p(s[k]),
    ensures
        find_first(s, p) == k,
    decreases s.len(),
{
    if s.len() == 0 {
    } else if k == 0 {
    } else {
        assert(!p(s[0]));
        assert forall|j: int| 0 <= j < k - 1 implies !p(#[trigger] s.drop_first()[j]) by {
            assert(s.drop_first()[j] == s[j + 1]);
        }
        if k - 1 < s.drop_first().len() {
            assert(s.drop_first()[k - 1] == s[k]);
        }
        lemma_find_first_is(s.drop_first(), p, k - 1);
    }
}

/// The pieces of a sequence split at every character satisfying `p`; the
/// separators themselves are dropped, and empty pieces are kept.
pub open spec fn split_on(s: Seq<char>, p: spec_fn(char) -> bool) -> Seq<Seq<char>>
    decreases s.len(),
    via split_on_decreases
{
    let k = find_first(s, p);
    if k < s.len() {
        seq![s.take(k)] + split_on(s.skip(k + 1), p)
    } else {
        seq![s]
    }
}

#[via_fn]
proof fn split_on_decreases(s: Seq<char>, p: spec_fn(char) -> bool) {
    lemma_find_first_bounds(s, p);
}

/// The predicate holding exactly of one character.
pub open spec fn char_eq_pred(sep: char) -> spec_fn(char) -> bool {
    |c: char| c == sep
}

/// Trim leading and trailing white space, as `str::trim` does.
pub fn trim(s: &str) -> (r: &str)
    ensures
        r@ == trim_spec(s@),
{
    let len: usize = s.unicode_len();
    let mut start: usize = 0;
    proof {
        assert(s@.skip(0) =~= s@);
    }
    while start < len && s.get_char(start).is_whitespace()
        invariant
            start <= len,
            len == s@.len(),
            drop_leading(s@, whitespace_pred()) == drop_leading(s@.skip(start as int),
            whitespace_pred()),
        decreases len - start,
    {
        proof {
            let suf = s@.skip(start as int);
            assert(suf[0] == s@[start as int]);
            assert(suf.drop_first() =~= s@.skip(start as int + 1));
        }
        start = start + 1;
    }
    proof {
        let suf = s@.skip(start as int);
        if start < len {
            assert(suf[0] == s@[start as int]);
            assert(drop_leading(suf, whitespace_pred()) == suf);
        } else {
            assert(suf =~= Seq::<char>::empty());
        }
    }
    let mut end: usize = len;
    while end > start && s.get_char(end - 1).is_whitespace()
        invariant
            start <= end <= len,
            len == s@.len(),
            drop_leading(s@, whitespace_pred()) == s@.skip(start as int),
            start < end ==> drop_trailing(s@.skip(start as int), whitespace_pred())
                == drop_trailing(s@.subrange(start as int, end as int), whitespace_pred()),
            start == end ==> drop_trailing(s@.skip(start as int), whitespace_pred())
                == s@.subrange(start as int, end as int),
        decreases end,
    {
        proof {
            let t = s@.subrange(start as int, end as int);
            assert(t.last() == s@[end - 1]);
            assert(t.drop_last() =~= s@.subrange(start as int, end as int - 1));
            if start == end - 1 {
                assert(t.drop_last() =~= Seq::<char>::empty());
                assert(drop_trailing(t, whitespace_pred()) == drop_trailing(
                    t.drop_last(),
                    whitespace_pred(),
                ));
                assert(drop_trailing(t.drop_last(), whitespace_pred()) == t.drop_last());
                assert(s@.subrange(start as int, end as int - 1) =~= Seq::<char>::empty());
            }
        }
        end = end - 1;
    }
    proof {
        let t = s@.subrange(start as int, end as int);
        if end > start {
            assert(t.last() == s@[end - 1]);
            assert(drop_trailing(t, whitespace_pred()) == t);
        } else {
            assert(t =~= Seq::<char>::empty());
        }
        assert(s@.skip(start as int) =~= s@.subrange(start as int, len as int));
    }
    s.substring_char(start, end)
}

/// Split at every occurrence of a character; the separators are dropped and
/// empty pieces kept, as `str::split` with a character pattern does.
pub fn split_char(s: &str, sep: char) -> (r: Vec<String>)
    ensures
        r.deep_view() == split_on(s@, char_eq_pred(sep)),
{
    let ghost p = char_eq_pred(sep);
    let len: usize = s.unicode_len();
    let mut out: Vec<String> = Vec::new();
    let mut start: usize = 0;
    proof {
        assert(s@.skip(0) =~= s@);
    }
    loop
        invariant
            start <= len,
            len == s@.len(),
            p == char_eq_pred(sep),
            split_on(s@, p) == out.deep_view() + split_on(s@.skip(start as int), p),
        decreases len - start,
    {
        let mut j: usize = start;
        while j < len && s.get_char(j) != sep
            invariant
                start <= j <= len,
                len == s@.len(),
                forall|t: int| start <= t < j ==> s@[t] != sep,
            decreases len - j,
        {
            j = j + 1;
        }
        let ghost suf = s@.skip(start as int);
        proof {
            assert forall|t: int| 0 <= t < j - start implies !p(#[trigger] suf[t]) by {
                assert(suf[t] == s@[start as int + t]);
            }
            if (j as int) - (start as int) < suf.len() {
                assert(suf[j as int - start as int] == s@[j as int]);
            }
            lemma_find_first_is(suf, p, j as int - start as int);
            assert(suf.take(j as int - start as int) =~= s@.subrange(start as int, j as int));
        }
        let piece = s.substring_char(start, j);
        let ghost before = out.deep_view();
        push_string(&mut out, String::from_str(piece));
        if j == len {
            proof {
                assert(split_on(suf, p) =~= seq![suf.take(j as int - start as int)]);
                assert(out.deep_view() =~= before + seq![s@.subrange(start as int, j as int)]);
                assert(split_on(s@, p) =~= out.deep_view());
            }
            return out;
        }
        proof {
            assert(suf.skip(j as int - start as int + 1) =~= s@.skip(j as int + 1));
            assert(split_on(suf, p) == seq![suf.take(j as int - start as int)] + split_on(
                s@.skip(j as int + 1),
                p,
            ));
            assert(out.deep_view() =~= before + seq![s@.subrange(start as int, j as int)]);
            assert(split_on(s@, p) =~= out.deep_view() + split_on(s@.skip(j as int + 1), p));
        }
        start = j + 1;
    }
}

/// Push one string, tracking the deep view.
pub fn push_string(v: &mut Vec<String>, x: String)
    ensures
        final(v).deep_view() == old(v).deep_view() + seq![x@],
{
    let ghost before = v.deep_view();
    let ghost xv = x@;
    v.push(x);
    proof {
        let now = v.deep_view();
        assert forall|j: int| 0 <= j < now.len() implies now[j] == (before + seq![xv])[j] by {
            assert(now[j] == v@[j]@);
            if j < before.len() {
                assert(before[j] == old(v)@[j]@);
            }
        }
        assert(now =~= before + seq![xv]);
    }
}

/// Whether a sequence starts with a prefix.
pub open spec fn starts_with_spec(s: Seq<char>, prefix: Seq<char>) -> bool {
    s.len() >= prefix.len() && s.take(prefix.len() as int) == prefix
}

/// Decide whether a string starts with a prefix.
pub fn starts_with(s: &str, prefix: &str) -> (r: bool)
    ensures
        r == starts_with_spec(s@, prefix@),
{
    let n: usize = prefix.unicode_len();
    let len: usize = s.unicode_len();
    if len < n {
        proof {
            assert(!starts_with_spec(s@, prefix@));
        }
        return false;
    }
    let head = s.substring_char(0, n);
    proof {
        assert(head@ =~= s@.take(n as int));
    }
    crate::strutil::str_eq(head, prefix)
}

/// The rest of a string after a prefix, where the prefix is there.
pub fn strip_prefix_str<'a>(s: &'a str, prefix: &str) -> (r: Option<&'a str>)
    ensures
        starts_with_spec(s@, prefix@) ==> (r matches Some(t) && t@ == s@.skip(
            prefix@.len() as int,
        )),
        !starts_with_spec(s@, prefix@) ==> r is None,
{
    if starts_with(s, prefix) {
        let n: usize = prefix.unicode_len();
        let len: usize = s.unicode_len();
        let rest = s.substring_char(n, len);
        proof {
            assert(rest@ =~= s@.skip(prefix@.len() as int));
        }
        Some(rest)
    } else {
        None
    }
}

/// Whether the needle occurs in the haystack as a contiguous run.
pub open spec fn contains_seq(h: Seq<char>, n: Seq<char>) -> bool {
    exists|i: int| 0 <= i <= h.len() - n.len() && #[trigger] h.subrange(i, i + n.len()) == n
}

/// Decide whether the needle occurs in the haystack.
pub fn contains_sub(h: &str, n: &str) -> (r: bool)
    ensures
        r == contains_seq(h@, n@),
{
    let hlen: usize = h.unicode_len();
    let nlen: usize = n.unicode_len();
    if nlen > hlen {
        proof {
            assert(!contains_seq(h@, n@));
        }
        return false;
    }
    if nlen == 0 {
        proof {
            assert(h@.subrange(0, 0 + n@.len() as int) =~= n@);
            assert(contains_seq(h@, n@));
        }
        return true;
    }
    let mut i: usize = 0;
    while i <= hlen - nlen
        invariant
            0 < nlen <= hlen,
            hlen == h@.len(),
            nlen == n@.len(),
            i <= hlen - nlen + 1,
            forall|t: int| 0 <= t < i ==> #[trigger] h@.subrange(t, t + n@.len()) != n@,
        decreases hlen - nlen - i + 1,
    {
        let window = h.substring_char(i, i + nlen);
        if crate::strutil::str_eq(window, n) {
            proof {
                assert(h@.subrange(i as int, i as int + n@.len()) == n@);
            }
            return true;
        }
        i = i + 1;
    }
    proof {
        if contains_seq(h@, n@) {
            let t = choose|t: int|
                0 <= t <= h@.len() - n@.len() && #[trigger] h@.subrange(t, t + n@.len()) == n@;
            assert(false);
        }
    }
    false
}


/// A line with a single trailing carriage return removed.
pub open spec fn strip_cr(l: Seq<char>) -> Seq<char> {
    if l.len() > 0 && l.last() == '\r' {
        l.drop_last()
    } else {
        l
    }
}

/// The lines of a text, as `str::lines` yields them: split at every newline,
/// no piece after a trailing newline, and a single trailing carriage return
/// removed from each line.
pub open spec fn lines_spec(s: Seq<char>) -> Seq<Seq<char>> {
    if s.len() == 0 {
        Seq::empty()
    } else {
        let parts = split_on(s, char_eq_pred('\n'));
        let kept = if s.last() == '\n' {
            parts.drop_last()
        } else {
            parts
        };
        kept.map_values(|l: Seq<char>| strip_cr(l))
    }
}

/// A split always yields at least one piece.
proof fn lemma_split_on_min_len(s: Seq<char>, p: spec_fn(char) -> bool)
    ensures
        split_on(s, p).len() >= 1,
{
    lemma_find_first_bounds(s, p);
}

/// The last piece of a newline split is what follows the last newline; for a
/// text ending in a newline it is empty.
proof fn lemma_split_last_piece(s: Seq<char>)
    requires
        s.len() > 0,
        s.last() == '\n',
    ensures
        split_on(s, char_eq_pred('\n')).len() > 1 ==> split_on(s, char_eq_pred('\n')).last()
            =~= Seq::<char>::empty(),
        split_on(s, char_eq_pred('\n')).len() > 0,
    decreases s.len(),
{
    let p = char_eq_pred('\n');
    let k = find_first(s, p);
    lemma_find_first_bounds(s, p);
    if k < s.len() {
        let rest = s.skip(k + 1);
        if rest.len() == 0 {
            assert(split_on(rest, p) =~= seq![rest]);
            assert(split_on(s, p).len() == 2);
            assert(split_on(s, p).last() =~= Seq::<char>::empty());
        } else {
            assert(rest.last() == s.last());
            lemma_split_last_piece(rest);
            assert(split_on(s, p).last() == split_on(rest, p).last());
            if split_on(rest, p).len() == 1 {
                let k2 = find_first(rest, p);
                lemma_find_first_bounds(rest, p);
                if k2 < rest.len() {
                    lemma_split_on_min_len(rest.skip(k2 + 1), p);
                    assert(split_on(rest, p).len() >= 2);
                }
                assert(k2 == rest.len());
                assert(!p(rest[rest.len() - 1]));
                assert(false);
            }
        }
    } else {
        assert(!p(s[s.len() - 1]));
        assert(false);
    }
}

/// Split a text into its lines, as `str::lines` does.
pub fn split_lines(s: &str) -> (r: Vec<String>)
    ensures
        r.deep_view() == lines_spec(s@),
{
    let len: usize = s.unicode_len();
    if len == 0 {
        let r: Vec<String> = Vec::new();
        proof {
            assert(r.deep_view() =~= lines_spec(s@));
        }
        return r;
    }
    let mut parts = split_char(s, '\n');
    let ghost all = split_on(s@, char_eq_pred('\n'));
    if s.get_char(len - 1) == '\n' {
        proof {
            lemma_split_last_piece(s@);
            if all.len() == 1 {
                let k = find_first(s@, char_eq_pred('\n'));
                lemma_find_first_bounds(s@, char_eq_pred('\n'));
                if k < s@.len() {
                    lemma_split_on_min_len(s@.skip(k + 1), char_eq_pred('\n'));
                    assert(all.len() >= 2);
                }
                assert(k == s@.len());
                assert(!char_eq_pred('\n')(s@[s@.len() - 1]));
                assert(false);
            }
            vstd::std_specs::vec::axiom_spec_len(&parts);
        }
        let popped = parts.pop();
        proof {
            let dv = parts.deep_view();
            assert forall|j: int| 0 <= j < dv.len() implies dv[j] == all.drop_last()[j] by {
                assert(dv[j] == parts@[j]@);
            }
            assert(dv =~= all.drop_last());
        }
    }
    let ghost kept = parts.deep_view();
    let ghost goal = kept.map_values(|l: Seq<char>| strip_cr(l));
    let mut out: Vec<String> = Vec::new();
    let mut i: usize = 0;
    proof {
        assert(out.deep_view() =~= goal.take(0));
        vstd::std_specs::vec::axiom_spec_len(&parts);
    }
    while i < parts.len()
        invariant
            i <= parts.len(),
            kept == parts.deep_view(),
            kept.len() <= usize::MAX as int,
            goal == kept.map_values(|l: Seq<char>| strip_cr(l)),
            out.deep_view() == goal.take(i as int),
        decreases parts.len() - i,
    {
        proof {
            assert(kept[i as int] == parts.deep_view()[i as int]);
        }
        let piece = &parts[i];
        let plen: usize = piece.as_str().unicode_len();
        let line = if plen > 0 && piece.as_str().get_char(plen - 1) == '\r' {
            let head = piece.as_str().substring_char(0, plen - 1);
            proof {
                assert(head@ =~= kept[i as int].drop_last());
            }
            String::from_str(head)
        } else {
            piece.clone()
        };
        proof {
            assert(line@ == strip_cr(kept[i as int]));
            assert(goal[i as int] == strip_cr(kept[i as int]));
        }
        push_string(&mut out, line);
        proof {
            assert(out.deep_view() =~= goal.take(i as int + 1));
        }
        i = i + 1;
    }
    proof {
        assert(goal.take(goal.len() as int) =~= goal);
        assert(lines_spec(s@) == goal);
    }
    out
}

/// Whether a piece is nonempty.
pub open spec fn nonempty_pred() -> spec_fn(Seq<char>) -> bool {
    |l: Seq<char>| l.len() > 0
}

/// The nonempty pieces between runs of white space, as
/// `str::split_whitespace` yields them.
pub open spec fn split_whitespace_spec(s: Seq<char>) -> Seq<Seq<char>> {
    split_on(s, whitespace_pred()).filter(nonempty_pred())
}

/// Split a string at white space, dropping empty pieces.
pub fn split_whitespace_vec(s: &str) -> (r: Vec<String>)
    ensures
        r.deep_view() == split_whitespace_spec(s@),
{
    let ghost p = whitespace_pred();
    let len: usize = s.unicode_len();
    let mut out: Vec<String> = Vec::new();
    let mut start: usize = 0;
    proof {
        reveal(Seq::filter);
        assert(s@.skip(0) =~= s@);
        assert(out.deep_view() + split_on(s@.skip(0), p).filter(nonempty_pred()) =~= split_on(
            s@,
            p,
        ).filter(nonempty_pred()));
    }
    loop
        invariant
            start <= len,
            len == s@.len(),
            p == whitespace_pred(),
            split_on(s@, p).filter(nonempty_pred()) == out.deep_view() + split_on(
                s@.skip(start as int),
                p,
            ).filter(nonempty_pred()),
        decreases len - start,
    {
        let mut j: usize = start;
        while j < len && !s.get_char(j).is_whitespace()
            invariant
                start <= j <= len,
                len == s@.len(),
                forall|t: int| start <= t < j ==> !is_whitespace_char(#[trigger] s@[t]),
            decreases len - j,
        {
            j = j + 1;
        }
        let ghost suf = s@.skip(start as int);
        proof {
            assert forall|t: int| 0 <= t < j - start implies !p(#[trigger] suf[t]) by {
                assert(suf[t] == s@[start as int + t]);
            }
            if (j as int) - (start as int) < suf.len() {
                assert(suf[j as int - start as int] == s@[j as int]);
            }
            lemma_find_first_is(suf, p, j as int - start as int);
            assert(suf.take(j as int - start as int) =~= s@.subrange(start as int, j as int));
        }
        let ghost piece_view = suf.take(j as int - start as int);
        if j > start {
            let piece = s.substring_char(start, j);
            let ghost before = out.deep_view();
            push_string(&mut out, String::from_str(piece));
            proof {
                crate::strutil::lemma_filter_singleton(piece_view, nonempty_pred());
            }
        } else {
            proof {
                crate::strutil::lemma_filter_singleton(piece_view, nonempty_pred());
                assert(piece_view =~= Seq::<char>::empty());
            }
        }
        if j == len {
            proof {
                assert(split_on(suf, p) =~= seq![piece_view]);
                assert(split_on(s@, p).filter(nonempty_pred()) =~= out.deep_view());
            }
            return out;
        }
        proof {
            assert(suf.skip(j as int - start as int + 1) =~= s@.skip(j as int + 1));
            assert(split_on(suf, p) == seq![piece_view] + split_on(s@.skip(j as int + 1), p));
            assert(split_on(suf, p).filter(nonempty_pred()) == seq![piece_view].filter(
                nonempty_pred(),
            ) + split_on(s@.skip(j as int + 1), p).filter(nonempty_pred()));
            assert(split_on(s@, p).filter(nonempty_pred()) =~= out.deep_view() + split_on(
                s@.skip(j as int + 1),
                p,
            ).filter(nonempty_pred()));
        }
        start = j + 1;
    }
}

/// Whether a character is an ASCII letter or digit.
pub open spec fn ascii_alnum(c: char) -> bool {
    (('a' as u32) <= (c as u32) && (c as u32) <= ('z' as u32)) || (('A' as u32) <= (c as u32) && (
    c as u32) <= ('Z' as u32)) || (('0' as u32) <= (c as u32) && (c as u32) <= ('9' as u32))
}

/// The ASCII-lowercased form of a character: an ASCII capital letter gains
/// thirty-two code points; everything else stays.
pub open spec fn ascii_lower(c: char) -> char {
    if ('A' as u32) <= (c as u32) && (c as u32) <= ('Z' as u32) {
        ((c as u32) + 32) as char
    } else {
        c
    }
}

/// Relies on `char::to_ascii_lowercase`: ASCII capital letters map to their
/// lowercase counterparts and every other character is unchanged.
pub assume_specification[ char::to_ascii_lowercase ](c: &char) -> (r: char)
    ensures
        r == ascii_lower(*c),
;

} // verus!
