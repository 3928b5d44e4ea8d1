//! Enumerating the permutations of a word: starting from its characters in
//! ascending order and stepping to the lexicographically next arrangement
//! until all have been seen.

use vstd::prelude::*;

use vstd::seq_lib::group_to_multiset_ensures;
use vstd::seq_lib::lemma_multiset_commutative;

use crate::strutil;

verus! {

/// Character order: by code point.
pub open spec fn char_le(a: char, b: char) -> bool {
    (a as u32) <= (b as u32)
}

pub open spec fn char_lt(a: char, b: char) -> bool {
    (a as u32) < (b as u32)
}

/// Ascending order, duplicates allowed.
pub open spec fn sorted(s: Seq<char>) -> bool {
    forall|i: int, j: int| 0 <= i < j < s.len() ==> char_le(s[i], s[j])
}

/// Sort characters ascending. Order and multiset pin the result completely:
/// there is exactly one sorted arrangement of a multiset.
fn sort_chars(v: Vec<char>) -> (r: Vec<char>)
    ensures
        sorted(r@),
        r@.to_multiset() == v@.to_multiset(),
        r@.len() == v@.len(),
{
    proof {
        broadcast use group_to_multiset_ensures;
    }
    let mut rest = v;
    let mut out: Vec<char> = Vec::new();
    proof {
        assert(out@.to_multiset().add(rest@.to_multiset()) =~= v@.to_multiset());
    }
    while rest.len() > 0
        invariant
            sorted(out@),
            out@.to_multiset().add(rest@.to_multiset()) == v@.to_multiset(),
            out@.len() + rest@.len() == v@.len(),
            forall|i: int, j: int|
                0 <= i < out@.len() && 0 <= j < rest@.len() ==> char_le(out@[i], rest@[j]),
        decreases rest@.len(),
    {
        let n = rest.len();
        let mut mi: usize = 0;
        let mut m: usize = 1;
        while m < n
            invariant
                mi < m <= n == rest@.len(),
                forall|t: int| 0 <= t < m ==> char_le(rest@[mi as int], rest@[t]),
            decreases n - m,
        {
            if (rest[m] as u32) < (rest[mi] as u32) {
                mi = m;
            }
            m = m + 1;
        }
        let ghost rest0 = rest@;
        let c = rest.remove(mi);
        out.push(c);
        proof {
            broadcast use group_to_multiset_ensures;

            assert(out@.to_multiset().add(rest@.to_multiset()) =~= v@.to_multiset());
            assert forall|j: int| 0 <= j < rest@.len() implies char_le(c, rest@[j]) by {
                if j < mi {
                    assert(rest@[j] == rest0[j]);
                } else {
                    assert(rest@[j] == rest0[j + 1]);
                }
            }
        }
    }
    out
}

/// Two arrangements of the same characters.
pub open spec fn same_chars(a: Seq<char>, b: Seq<char>) -> bool {
    a.to_multiset() == b.to_multiset()
}

/// Lexicographic order on arrangements: at some position `a` holds the
/// strictly smaller character while everything before it is equal.
pub open spec fn lex_lt(a: Seq<char>, b: Seq<char>) -> bool {
    exists|d: int|
        0 <= d < a.len() && d < b.len() && (forall|m: int| 0 <= m < d ==> a[m] == b[m]) && char_lt(
            a[d],
            b[d],
        )
}

/// `b` is the lexicographic successor of `a`: an arrangement of the same
/// characters, strictly greater, and least among the strictly greater ones.
pub open spec fn is_successor(a: Seq<char>, b: Seq<char>) -> bool {
    &&& same_chars(a, b)
    &&& lex_lt(a, b)
    &&& forall|q: Seq<char>| #![auto] same_chars(a, q) && lex_lt(a, q) && q != b ==> lex_lt(b, q)
}

/// `a` is the greatest arrangement of its characters.
pub open spec fn lex_maximal(a: Seq<char>) -> bool {
    forall|q: Seq<char>| #![auto] same_chars(a, q) ==> !lex_lt(a, q)
}

/// Characters with the same code point are the same character.
proof fn lemma_char_eq(a: char, b: char)
    requires
        a as u32 == b as u32,
    ensures
        a == b,
{
    broadcast use vstd::utf8::char_u32_cast;

    assert((a as u32) as char == a);
    assert((b as u32) as char == b);
}

proof fn lemma_same_chars_len(a: Seq<char>, b: Seq<char>)
    requires
        same_chars(a, b),
    ensures
        a.len() == b.len(),
{
    broadcast use group_to_multiset_ensures;

    assert(a.len() == a.to_multiset().len());
    assert(b.len() == b.to_multiset().len());
}

/// A character counted by a sequence's multiset stands at some position.
proof fn lemma_elem_index(s: Seq<char>, x: char)
    requires
        s.to_multiset().count(x) > 0,
    ensures
        exists|t: int| 0 <= t < s.len() && s[t] == x,
{
    broadcast use group_to_multiset_ensures;

    assert(s.contains(x));
}

/// Arrangements of the same characters that agree up to `d` hold the same
/// characters from `d` on.
proof fn lemma_suffix_multiset(a: Seq<char>, b: Seq<char>, d: int)
    requires
        same_chars(a, b),
        a.len() == b.len(),
        0 <= d <= a.len(),
        forall|m: int| 0 <= m < d ==> a[m] == b[m],
    ensures
        a.skip(d).to_multiset() == b.skip(d).to_multiset(),
{
    broadcast use group_to_multiset_ensures;
    broadcast use vstd::multiset::group_multiset_axioms;

    assert(a =~= a.take(d) + a.skip(d));
    assert(b =~= b.take(d) + b.skip(d));
    lemma_multiset_commutative(a.take(d), a.skip(d));
    lemma_multiset_commutative(b.take(d), b.skip(d));
    assert(a.take(d) =~= b.take(d));
    assert forall|x: char| true implies a.skip(d).to_multiset().count(x) == b.skip(
        d,
    ).to_multiset().count(x) by {
        assert(a.to_multiset().count(x) == a.take(d).to_multiset().count(x) + a.skip(
            d,
        ).to_multiset().count(x));
        assert(b.to_multiset().count(x) == b.take(d).to_multiset().count(x) + b.skip(
            d,
        ).to_multiset().count(x));
    }
    assert(a.skip(d).to_multiset() =~= b.skip(d).to_multiset());
}

/// The character another arrangement shows at the first difference comes
/// from somewhere in this one's suffix.
proof fn lemma_first_diff_in_suffix(s: Seq<char>, q: Seq<char>, d: int)
    requires
        same_chars(s, q),
        s.len() == q.len(),
        0 <= d < s.len(),
        forall|m: int| 0 <= m < d ==> s[m] == q[m],
    ensures
        exists|t: int| d <= t < s.len() && s[t] == q[d],
{
    broadcast use group_to_multiset_ensures;

    lemma_suffix_multiset(s, q, d);
    assert(q.skip(d)[0] == q[d]);
    assert(q.skip(d).contains(q[d]));
    assert(s.skip(d).to_multiset().count(q[d]) > 0);
    lemma_elem_index(s.skip(d), q[d]);
    let t0 = choose|t: int| 0 <= t < s.skip(d).len() && s.skip(d)[t] == q[d];
    assert(s[d + t0] == q[d]);
}

/// The sorted arrangement is the least arrangement of its characters.
proof fn lemma_sorted_lex_min(p: Seq<char>, q: Seq<char>)
    requires
        sorted(p),
        same_chars(p, q),
    ensures
        p == q || lex_lt(p, q),
    decreases p.len(),
{
    broadcast use group_to_multiset_ensures;

    lemma_same_chars_len(p, q);
    if p.len() == 0 {
        assert(p =~= q);
    } else {
        // the head of `p` is the least character, so it is at most `q`'s head
        assert(q.to_multiset().count(q[0]) > 0) by {
            assert(q.contains(q[0]));
        }
        lemma_elem_index(p, q[0]);
        let t = choose|t: int| 0 <= t < p.len() && p[t] == q[0];
        assert(char_le(p[0], q[0]));
        if char_lt(p[0], q[0]) {
            assert(lex_lt(p, q));
        } else {
            lemma_char_eq(p[0], q[0]);
            let p2 = p.drop_first();
            let q2 = q.drop_first();
            assert(p.remove(0) =~= p2);
            assert(q.remove(0) =~= q2);
            assert(p2.to_multiset() == p.to_multiset().remove(p[0]));
            assert(q2.to_multiset() == q.to_multiset().remove(q[0]));
            assert(same_chars(p2, q2));
            assert(sorted(p2));
            lemma_sorted_lex_min(p2, q2);
            if p2 == q2 {
                assert forall|m: int| 0 <= m < p.len() implies p[m] == q[m] by {
                    if m > 0 {
                        assert(p[m] == p2[m - 1]);
                        assert(q[m] == q2[m - 1]);
                    }
                }
                assert(p =~= q);
            } else {
                let d2 = choose|d: int|
                    0 <= d < p2.len() && d < q2.len() && (forall|m: int|
                        0 <= m < d ==> p2[m] == q2[m]) && char_lt(p2[d], q2[d]);
                assert forall|m: int| 0 <= m < d2 + 1 implies p[m] == q[m] by {
                    if m > 0 {
                        assert(p[m] == p2[m - 1]);
                        assert(q[m] == q2[m - 1]);
                    }
                }
                assert(p[d2 + 1] == p2[d2] && q[d2 + 1] == q2[d2]);
                assert(char_lt(p[d2 + 1], q[d2 + 1]));
                assert(lex_lt(p, q));
            }
        }
    }
}

/// An arrangement of no more than one character is its own greatest
/// arrangement.
proof fn lemma_short_maximal(s: Seq<char>)
    requires
        s.len() < 2,
    ensures
        lex_maximal(s),
{
    assert forall|q: Seq<char>| same_chars(s, q) implies !lex_lt(s, q) by {
        lemma_same_chars_len(s, q);
        if lex_lt(s, q) {
            let d = choose|d: int|
                0 <= d < s.len() && d < q.len() && (forall|m: int| 0 <= m < d ==> s[m] == q[m])
                    && char_lt(s[d], q[d]);
            lemma_first_diff_in_suffix(s, q, d);
            let t = choose|t: int| d <= t < s.len() && s[t] == q[d];
            assert(t == d);
            assert(false);
        }
    }
}

/// A non-increasing arrangement is the greatest arrangement of its
/// characters.
proof fn lemma_nonincreasing_maximal(s: Seq<char>)
    requires
        forall|l: int, t: int| 0 <= l < s.len() && l < t < s.len() ==> !char_lt(s[l], s[t]),
    ensures
        lex_maximal(s),
{
    assert forall|q: Seq<char>| same_chars(s, q) implies !lex_lt(s, q) by {
        lemma_same_chars_len(s, q);
        if lex_lt(s, q) {
            let d = choose|d: int|
                0 <= d < s.len() && d < q.len() && (forall|m: int| 0 <= m < d ==> s[m] == q[m])
                    && char_lt(s[d], q[d]);
            lemma_first_diff_in_suffix(s, q, d);
            let t = choose|t: int| d <= t < s.len() && s[t] == q[d];
            if t == d {
                assert(false);
            } else {
                assert(!char_lt(s[d], s[t]));
                assert(false);
            }
        }
    }
}

/// The next-arrangement step is correct: put the smallest larger value at
/// the rightmost position that can grow and sort the rest, and the result is
/// the least arrangement strictly greater than the current one.
proof fn lemma_successor(s: Seq<char>, nw: Seq<char>, l: int, r: int, ts: Seq<char>)
    requires
        0 <= l < r < s.len(),
        char_lt(s[l], s[r]),
        // `r` holds the smallest value right of `l` that is larger than `l`'s
        forall|t: int| l < t < s.len() && char_lt(s[l], s[t]) ==> char_le(s[r], s[t]),
        // no position right of `l` can grow
        forall|l2: int, t: int| l < l2 < s.len() && l2 < t < s.len() ==> !char_lt(s[l2], s[t]),
        nw == s.subrange(0, l) + seq![s[r]] + ts,
        sorted(ts),
        ts.len() == s.len() - l - 1,
        same_chars(s, nw),
    ensures
        is_successor(s, nw),
{
    assert(nw.len() == s.len());
    assert forall|m: int| 0 <= m < l implies nw[m] == s[m] by {
        assert(nw[m] == s.subrange(0, l)[m]);
    }
    assert(nw[l] == s[r]);
    assert(lex_lt(s, nw)) by {
        assert(0 <= l < s.len() && l < nw.len() && (forall|m: int| 0 <= m < l ==> s[m] == nw[m])
            && char_lt(s[l], nw[l]));
    }
    assert forall|q: Seq<char>|
        same_chars(s, q) && lex_lt(s, q) && q != nw implies lex_lt(nw, q) by {
        lemma_same_chars_len(s, q);
        let d = choose|d: int|
            0 <= d < s.len() && d < q.len() && (forall|m: int| 0 <= m < d ==> s[m] == q[m])
                && char_lt(s[d], q[d]);
        if d > l {
            // impossible: the value at `d` is already the largest available
            lemma_first_diff_in_suffix(s, q, d);
            let t = choose|t: int| d <= t < s.len() && s[t] == q[d];
            if t == d {
                assert(false);
            } else {
                assert(!char_lt(s[d], s[t]));
                assert(false);
            }
        } else if d < l {
            // `nw` still agrees with `s` at the first difference
            assert(lex_lt(nw, q)) by {
                assert(0 <= d < nw.len() && d < q.len() && (forall|m: int|
                    0 <= m < d ==> nw[m] == q[m]) && char_lt(nw[d], q[d]));
            }
        } else {
            // d == l: whatever `q` puts at `l` is one of the suffix values
            // larger than `s[l]`, so at least `s[r]`
            lemma_first_diff_in_suffix(s, q, l);
            let t = choose|t: int| l <= t < s.len() && s[t] == q[l];
            assert(t != l);
            assert(char_lt(s[l], s[t]));
            assert(char_le(nw[l], q[l]));
            if char_lt(nw[l], q[l]) {
                assert(lex_lt(nw, q)) by {
                    assert(0 <= l < nw.len() && l < q.len() && (forall|m: int|
                        0 <= m < l ==> nw[m] == q[m]) && char_lt(nw[l], q[l]));
                }
            } else {
                // equal value at `l`: compare the suffixes, where `nw` is
                // sorted and hence least
                lemma_char_eq(nw[l], q[l]);
                assert(forall|m: int| 0 <= m < l + 1 ==> nw[m] == q[m]);
                lemma_suffix_multiset(nw, q, l + 1);
                assert(nw.skip(l + 1) =~= ts);
                lemma_sorted_lex_min(ts, q.skip(l + 1));
                if ts == q.skip(l + 1) {
                    assert forall|m: int| 0 <= m < nw.len() implies nw[m] == q[m] by {
                        if m > l {
                            assert(nw[m] == nw.skip(l + 1)[m - l - 1]);
                            assert(q[m] == q.skip(l + 1)[m - l - 1]);
                        }
                    }
                    assert(nw =~= q);
                    assert(false);
                } else {
                    let qs = q.skip(l + 1);
                    let d2 = choose|d: int|
                        0 <= d < ts.len() && d < qs.len() && (forall|m: int|
                            0 <= m < d ==> ts[m] == qs[m]) && char_lt(ts[d], qs[d]);
                    assert forall|m: int| 0 <= m < l + 1 + d2 implies nw[m] == q[m] by {
                        if m > l {
                            assert(nw[m] == nw.skip(l + 1)[m - l - 1]);
                            assert(q[m] == qs[m - l - 1]);
                        }
                    }
                    assert(nw[l + 1 + d2] == nw.skip(l + 1)[d2]);
                    assert(q[l + 1 + d2] == qs[d2]);
                    assert(lex_lt(nw, q)) by {
                        assert(0 <= l + 1 + d2 < nw.len() && l + 1 + d2 < q.len() && (forall|
                            m: int,
                        |
                            0 <= m < l + 1 + d2 ==> nw[m] == q[m]) && char_lt(
                            nw[l + 1 + d2],
                            q[l + 1 + d2],
                        ));
                    }
                }
            }
        }
    }
}

/// The permutations of a set of characters, stepped through in
/// lexicographic order.
pub struct Permutations {
    /// The current arrangement.
    chars: Vec<char>,
    /// Set once every arrangement has been handed out.
    exhausted: bool,
}

/// Start enumerating the permutations of a word: its characters, sorted
/// ascending — the lexicographically least arrangement.
pub fn permutations(word: &str) -> (r: Permutations)
    ensures
        sorted(r.spec_chars()),
        r.spec_chars().to_multiset() == word@.to_multiset(),
        !r.spec_exhausted(),
        forall|q: Seq<char>| #![auto]
            same_chars(r.spec_chars(), q) ==> r.spec_chars() == q || lex_lt(r.spec_chars(), q),
{
    let chars = strutil::str_to_chars(word);
    let r = Permutations { chars: sort_chars(chars), exhausted: false };
    proof {
        assert forall|q: Seq<char>| #![auto]
            same_chars(r.spec_chars(), q) implies r.spec_chars() == q || lex_lt(
            r.spec_chars(),
            q,
        ) by {
            lemma_sorted_lex_min(r.spec_chars(), q);
        }
    }
    r
}

impl Permutations {
    pub closed spec fn spec_chars(&self) -> Seq<char> {
        self.chars@
    }

    pub closed spec fn spec_exhausted(&self) -> bool {
        self.exhausted
    }

    /// Hand out the current arrangement (or nothing once exhausted) and step
    /// to the next one: the lexicographically least arrangement strictly
    /// greater than the current one, until the greatest arrangement has been
    /// handed out, which exhausts the enumeration for good.
    pub fn next(&mut self) -> (r: Option<String>)
        ensures
            (r is None) == old(self).spec_exhausted(),
            r matches Some(s) ==> s@ == old(self).spec_chars(),
            final(self).spec_chars().to_multiset() == old(self).spec_chars().to_multiset(),
            old(self).spec_exhausted() ==> final(self).spec_exhausted(),
            !old(self).spec_exhausted() && !final(self).spec_exhausted() ==> is_successor(
                old(self).spec_chars(),
                final(self).spec_chars(),
            ),
            !old(self).spec_exhausted() && final(self).spec_exhausted() ==> lex_maximal(
                old(self).spec_chars(),
            ),
    {
        let ret = if self.exhausted {
            None
        } else {
            let n = self.chars.len();
            Some(strutil::string_range(&self.chars, 0, n))
        };
        proof {
            assert(self.chars@.subrange(0, self.chars@.len() as int) =~= self.chars@);
        }
        self.advance();
        ret
    }

    /// Step to the next arrangement: find the rightmost position whose value
    /// can still grow, put the smallest larger value from its right there,
    /// and sort everything after it — the least arrangement strictly greater
    /// than the current one. When no position can grow the arrangement is the
    /// greatest one and the enumeration is marked exhausted.
    fn advance(&mut self)
        ensures
            final(self).spec_chars().to_multiset() == old(self).spec_chars().to_multiset(),
            final(self).spec_chars().len() == old(self).spec_chars().len(),
            old(self).spec_exhausted() ==> final(self).spec_exhausted(),
            !old(self).spec_exhausted() && !final(self).spec_exhausted() ==> is_successor(
                old(self).spec_chars(),
                final(self).spec_chars(),
            ),
            !old(self).spec_exhausted() && final(self).spec_exhausted() ==> lex_maximal(
                old(self).spec_chars(),
            ),
    {
        let len = self.chars.len();
        if len < 2 {
            self.exhausted = true;
            proof {
                lemma_short_maximal(self.chars@);
            }
            return;
        }
        let (left, right) = self.find_swappees();
        let ghost exh = self.exhausted;
        let vl = self.chars[left];
        let vr = self.chars[right];
        // the new arrangement: everything before `left`, then the value from
        // `right`, then the rest (with the value from `left` in place of the
        // one taken) in ascending order
        let mut tail: Vec<char> = Vec::new();
        let mut m: usize = left;
        while m < right
            invariant
                left <= m <= right < len == self.chars@.len(),
                tail@ == self.chars@.subrange(left as int, m as int),
            decreases right - m,
        {
            tail.push(self.chars[m]);
            proof {
                assert(self.chars@.subrange(left as int, m + 1 as int) =~= self.chars@.subrange(
                    left as int,
                    m as int,
                ).push(self.chars@[m as int]));
            }
            m = m + 1;
        }
        m = right + 1;
        let ghost first_part = self.chars@.subrange(left as int, right as int);
        while m < len
            invariant
                right < m <= len == self.chars@.len(),
                first_part == self.chars@.subrange(left as int, right as int),
                tail@ == first_part + self.chars@.subrange(right + 1 as int, m as int),
            decreases len - m,
        {
            tail.push(self.chars[m]);
            proof {
                assert(self.chars@.subrange(right + 1 as int, m + 1 as int)
                    =~= self.chars@.subrange(right + 1 as int, m as int).push(
                    self.chars@[m as int],
                ));
                assert(tail@ =~= first_part + self.chars@.subrange(right + 1 as int, m + 1 as int));
            }
            m = m + 1;
        }
        let tail_sorted = sort_chars(tail);
        let mut nw: Vec<char> = Vec::new();
        let mut i: usize = 0;
        while i < left
            invariant
                i <= left < len == self.chars@.len(),
                nw@ == self.chars@.subrange(0, i as int),
            decreases left - i,
        {
            nw.push(self.chars[i]);
            proof {
                assert(self.chars@.subrange(0, i + 1 as int) =~= self.chars@.subrange(
                    0,
                    i as int,
                ).push(self.chars@[i as int]));
            }
            i = i + 1;
        }
        nw.push(vr);
        let tn = tail_sorted.len();
        let ghost mid_part = self.chars@.subrange(0, left as int).push(vr);
        proof {
            assert(nw@ == mid_part);
        }
        let mut t: usize = 0;
        while t < tn
            invariant
                t <= tn == tail_sorted@.len(),
                mid_part == self.chars@.subrange(0, left as int).push(
                    self.chars@[right as int],
                ),
                vr == self.chars@[right as int],
                left < len == self.chars@.len(),
                nw@ == mid_part + tail_sorted@.subrange(0, t as int),
            decreases tn - t,
        {
            nw.push(tail_sorted[t]);
            proof {
                assert(tail_sorted@.subrange(0, t + 1 as int) =~= tail_sorted@.subrange(
                    0,
                    t as int,
                ).push(tail_sorted@[t as int]));
                assert(nw@ =~= mid_part + tail_sorted@.subrange(0, t + 1 as int));
            }
            t = t + 1;
        }
        proof {
            broadcast use group_to_multiset_ensures;

            let s = self.chars@;
            let pre = s.subrange(0, left as int);
            let a = s.subrange(left as int, right as int);
            let b = s.subrange(right + 1 as int, len as int);
            assert(tail_sorted@.subrange(0, tn as int) =~= tail_sorted@);
            assert(nw@ =~= pre + seq![vr] + tail_sorted@);
            // the old arrangement, split around `right`
            assert(s =~= pre + (a + seq![vr] + b));
            // both sides decompose into the same three multisets
            lemma_multiset_commutative(a, b);
            assert(tail_sorted@.to_multiset() =~= (a + b).to_multiset());
            lemma_multiset_commutative(pre + seq![vr], tail_sorted@);
            assert((pre + seq![vr] + tail_sorted@).to_multiset() =~= (pre
                + seq![vr]).to_multiset().add((a + b).to_multiset()));
            lemma_multiset_commutative(pre, seq![vr]);
            lemma_multiset_commutative(a, seq![vr] + b);
            lemma_multiset_commutative(seq![vr], b);
            lemma_multiset_commutative(pre, a + seq![vr] + b);
            assert(s.to_multiset() =~= pre.to_multiset().add(
                (a + seq![vr] + b).to_multiset(),
            ));
            assert(a + seq![vr] + b =~= a + (seq![vr] + b));
            assert(nw@.to_multiset() =~= s.to_multiset());
            if !old(self).spec_exhausted() {
                if !exh {
                    assert(tail_sorted@.len() == s.len() - left - 1);
                    lemma_successor(s, nw@, left as int, right as int, tail_sorted@);
                } else {
                    lemma_nonincreasing_maximal(s);
                }
            }
        }
        self.chars = nw;
    }

    /// The positions to exchange: `left` is the rightmost position with a
    /// strictly larger value somewhere to its right, and `right` holds the
    /// smallest such value (its first occurrence). When no position
    /// qualifies, the current arrangement is the last one: the enumeration
    /// is marked exhausted and `(0, 0)` comes back.
    fn find_swappees(&mut self) -> (r: (usize, usize))
        requires
            old(self).spec_chars().len() >= 2,
        ensures
            final(self).spec_chars() == old(self).spec_chars(),
            old(self).spec_exhausted() ==> final(self).spec_exhausted(),
            r.0 <= r.1 < final(self).spec_chars().len(),
            !final(self).spec_exhausted() ==> {
                let s = final(self).spec_chars();
                &&& r.0 < r.1 < s.len()
                &&& char_lt(s[r.0 as int], s[r.1 as int])
                &&& forall|t: int|
                    r.0 < t < s.len() && char_lt(s[r.0 as int], s[t]) ==> char_le(
                        s[r.1 as int],
                        s[t],
                    )
                &&& forall|l: int, t: int|
                    r.0 < l < s.len() && l < t < s.len() ==> !char_lt(s[l], s[t])
            },
            (!old(self).spec_exhausted() && final(self).spec_exhausted()) ==> {
                let s = final(self).spec_chars();
                r == (0usize, 0usize) && forall|l: int, t: int|
                    0 <= l < s.len() && l < t < s.len() ==> !char_lt(s[l], s[t])
            },
    {
        let len = self.chars.len();
        let mut left_idx = len - 2;
        loop
            invariant
                2 <= len == self.chars@.len(),
                left_idx <= len - 2,
                *self == *old(self),
                forall|l: int, t: int|
                    left_idx < l < len && l < t < len ==> !char_lt(
                        self.chars@[l],
                        self.chars@[t],
                    ),
            decreases left_idx,
        {
            match self.find_smallest_value_to_the_right_bigger_than_value_at_idx(left_idx) {
                Some(idx) => {
                    return (left_idx, idx);
                },
                None => {
                    proof {
                        assert(forall|t: int|
                            left_idx < t < len ==> !char_lt(
                                self.chars@[left_idx as int],
                                self.chars@[t],
                            ));
                    }
                    if left_idx == 0 {
                        self.exhausted = true;
                        return (0, 0);
                    }
                    left_idx = left_idx - 1;
                },
            }
        }
    }

    /// The first occurrence, right of `left`, of the smallest value strictly
    /// larger than the value at `left`; nothing if no larger value follows.
    fn find_smallest_value_to_the_right_bigger_than_value_at_idx(&self, left: usize) -> (r:
        Option<usize>)
        requires
            left < self.spec_chars().len(),
        ensures
            r matches Some(p) ==> {
                let s = self.spec_chars();
                &&& left < p < s.len()
                &&& char_lt(s[left as int], s[p as int])
                &&& forall|t: int|
                    left < t < s.len() && char_lt(s[left as int], s[t]) ==> char_le(
                        s[p as int],
                        s[t],
                    )
            },
            r is None ==> forall|t: int|
                left < t < self.spec_chars().len() ==> !char_lt(
                    self.spec_chars()[left as int],
                    self.spec_chars()[t],
                ),
    {
        let len = self.chars.len();
        let mut smallest: Option<usize> = None;
        let mut right = left + 1;
        while right < len
            invariant
                left < right <= len == self.chars@.len(),
                smallest matches Some(p) ==> left < p < right && char_lt(
                    self.chars@[left as int],
                    self.chars@[p as int],
                ) && (forall|t: int|
                    left < t < right && char_lt(self.chars@[left as int], self.chars@[t])
                        ==> char_le(self.chars@[p as int], self.chars@[t])),
                smallest is None ==> forall|t: int|
                    left < t < right ==> !char_lt(self.chars@[left as int], self.chars@[t]),
            decreases len - right,
        {
            let right_ch = self.chars[right];
            if (self.chars[left] as u32) < (right_ch as u32) {
                match smallest {
                    None => {
                        smallest = Some(right);
                    },
                    Some(p) => {
                        if (right_ch as u32) < (self.chars[p] as u32) {
                            smallest = Some(right);
                        }
                    },
                }
            }
            right = right + 1;
        }
        smallest
    }
}

} // verus!
