//! Small verified helpers for working with strings as sequences of
//! characters, plus the two trusted shims on std that the rest of the
//! library builds its string handling on.

use vstd::prelude::*;

verus! {

/// Whether a character has the Unicode `Alphabetic` property, as decided by
/// `char::is_alphabetic`.
pub uninterp spec fn alphabetic(c: char) -> bool;

/// Relies on char::is_alphabetic: returns whether the character has the
/// Unicode `Alphabetic` property; within ASCII those are exactly the letters.
pub assume_specification[ char::is_alphabetic ](c: char) -> (r: bool)
    ensures
        r == alphabetic(c),
        (c as u32) < 128 ==> r == (('a' as u32) <= (c as u32) && (c as u32) <= ('z' as u32)
            || ('A' as u32) <= (c as u32) && (c as u32) <= ('Z' as u32)),
;

/// Relies on String::push: appends exactly the given character.
#[verifier::external_body]
pub(crate) fn push_char(s: &mut String, c: char)
    ensures
        final(s)@ == old(s)@.push(c),
{
    s.push(c);
}

/// Character-wise string equality.
pub fn str_eq(a: &str, b: &str) -> (r: bool)
    ensures
        r == (a@ == b@),
{
    let alen = a.unicode_len();
    let blen = b.unicode_len();
    if alen != blen {
        return false;
    }
    let mut i: usize = 0;
    while i < alen
        invariant
            i <= alen,
            alen == a@.len(),
            alen == b@.len(),
            forall|j: int| 0 <= j < i ==> a@[j] == b@[j],
        decreases alen - i,
    {
        if a.get_char(i) != b.get_char(i) {
            return false;
        }
        i += 1;
    }
    proof {
        assert(a@ =~= b@);
    }
    true
}

/// The characters of a string, in order, as a vector.
pub fn str_to_chars(s: &str) -> (r: Vec<char>)
    ensures
        r@ == s@,
{
    let len = s.unicode_len();
    let mut v: Vec<char> = Vec::new();
    let mut i: usize = 0;
    while i < len
        invariant
            i <= len,
            len == s@.len(),
            v@ == s@.subrange(0, i as int),
        decreases len - i,
    {
        let c = s.get_char(i);
        v.push(c);
        proof {
            assert(s@.subrange(0, i + 1 as int) =~= s@.subrange(0, i as int).push(s@[i as int]));
        }
        i += 1;
    }
    proof {
        assert(v@ =~= s@);
    }
    v
}

/// A string holding the characters `chars[from..to]`.
pub fn string_range(chars: &Vec<char>, from: usize, to: usize) -> (r: String)
    requires
        from <= to <= chars@.len(),
    ensures
        r@ == chars@.subrange(from as int, to as int),
{
    let mut s = String::new();
    let mut i: usize = from;
    while i < to
        invariant
            from <= i <= to <= chars@.len(),
            s@ == chars@.subrange(from as int, i as int),
        decreases to - i,
    {
        push_char(&mut s, chars[i]);
        proof {
            assert(chars@.subrange(from as int, i + 1 as int)
                =~= chars@.subrange(from as int, i as int).push(chars@[i as int]));
        }
        i += 1;
    }
    s
}


/// Whether a character has the Unicode `White_Space` property, as decided by
/// `char::is_whitespace`.
pub uninterp spec fn whitespace(c: char) -> bool;

/// Relies on char::is_whitespace: returns whether the character has the
/// Unicode `White_Space` property; within ASCII those are exactly space,
/// tab, line feed, vertical tab, form feed and carriage return.
pub assume_specification[ char::is_whitespace ](c: char) -> (r: bool)
    ensures
        r == whitespace(c),
        (c as u32) < 128 ==> r == ((c as u32) == 32 || (c as u32) == 9 || (c as u32) == 10
            || (c as u32) == 11 || (c as u32) == 12 || (c as u32) == 13),
;

/// The number of bytes the UTF-8 encoding of a character takes.
pub open spec fn utf8_len(c: char) -> int {
    if (c as u32) < 0x80 {
        1
    } else if (c as u32) < 0x800 {
        2
    } else if (c as u32) < 0x10000 {
        3
    } else {
        4
    }
}

/// The UTF-8 encoded length of one character.
pub fn char_len_utf8(c: char) -> (r: usize)
    ensures
        r as int == utf8_len(c),
{
    let u = c as u32;
    if u < 0x80 {
        1
    } else if u < 0x800 {
        2
    } else if u < 0x10000 {
        3
    } else {
        4
    }
}

/// How many characters from position `i` on fit within `budget` bytes of
/// UTF-8: the longest character-boundary prefix within the byte budget.
pub open spec fn fit_len(s: Seq<char>, i: int, budget: int) -> int
    decreases s.len() - i,
{
    if i < 0 || i >= s.len() || utf8_len(s[i]) > budget {
        0
    } else {
        1 + fit_len(s, i + 1, budget - utf8_len(s[i]))
    }
}

pub proof fn lemma_fit_len_range(s: Seq<char>, i: int, budget: int)
    requires
        0 <= i <= s.len(),
    ensures
        0 <= fit_len(s, i, budget),
        i + fit_len(s, i, budget) <= s.len(),
    decreases s.len() - i,
{
    if i < s.len() && utf8_len(s[i]) <= budget {
        lemma_fit_len_range(s, i + 1, budget - utf8_len(s[i]));
    }
}

/// Byte budgets do not care where in a sequence counting starts.
pub proof fn lemma_fit_len_skip(s: Seq<char>, j: int, i: int, budget: int)
    requires
        0 <= j <= i <= s.len(),
    ensures
        fit_len(s, i, budget) == fit_len(s.skip(j), i - j, budget),
    decreases s.len() - i,
{
    if i < s.len() {
        assert(s.skip(j)[i - j] == s[i]);
        if utf8_len(s[i]) <= budget {
            lemma_fit_len_skip(s, j, i + 1, budget - utf8_len(s[i]));
        }
    }
}

/// The number of characters of `chars[pos..]` that fit within `budget` bytes
/// of UTF-8.
pub(crate) fn take_within(chars: &Vec<char>, pos: usize, budget: usize) -> (k: usize)
    requires
        pos <= chars@.len(),
    ensures
        k as int == fit_len(chars@, pos as int, budget as int),
        pos + k <= chars@.len(),
{
    let len = chars.len();
    let mut k: usize = 0;
    let mut used: usize = 0;
    while pos + k < len
        invariant
            pos + k <= len == chars@.len(),
            used <= budget,
            fit_len(chars@, pos as int, budget as int) == k + fit_len(
                chars@,
                pos + k as int,
                budget - used as int,
            ),
        decreases len - pos - k,
    {
        let l = char_len_utf8(chars[pos + k]);
        if l > budget - used {
            proof {
                assert(fit_len(chars@, pos + k as int, budget - used as int) == 0);
            }
            return k;
        }
        used = used + l;
        k = k + 1;
    }
    proof {
        assert(fit_len(chars@, pos + k as int, budget - used as int) == 0);
    }
    k
}

/// Position of the first non-whitespace character of `s[i..end]`.
pub open spec fn find_solid(s: Seq<char>, i: int, end: int) -> Option<int>
    decreases end - i,
{
    if i < 0 || i >= end {
        None
    } else if !whitespace(s[i]) {
        Some(i)
    } else {
        find_solid(s, i + 1, end)
    }
}

/// Position of the last non-whitespace character of `s[i..end]`.
pub open spec fn last_solid(s: Seq<char>, i: int, end: int) -> Option<int>
    decreases end - i,
{
    if i < 0 || i >= end {
        None
    } else if !whitespace(s[end - 1]) {
        Some(end - 1)
    } else {
        last_solid(s, i, end - 1)
    }
}

/// `s[i..end]` with leading and trailing whitespace removed.
pub open spec fn trim_ws(s: Seq<char>, i: int, end: int) -> Seq<char> {
    match find_solid(s, i, end) {
        None => Seq::empty(),
        Some(a) => match last_solid(s, i, end) {
            None => Seq::empty(),
            Some(b) => s.subrange(a, b + 1),
        },
    }
}

proof fn lemma_find_solid_range(s: Seq<char>, i: int, end: int)
    ensures
        find_solid(s, i, end) matches Some(p) ==> i <= p < end && !whitespace(s[p]) && (forall|
            k: int,
        |
            i <= k < p ==> whitespace(s[k])),
        0 <= i && find_solid(s, i, end) is None ==> forall|k: int|
            i <= k < end ==> whitespace(s[k]),
    decreases end - i,
{
    if 0 <= i < end && whitespace(s[i]) {
        lemma_find_solid_range(s, i + 1, end);
    }
}

proof fn lemma_last_solid_range(s: Seq<char>, i: int, end: int)
    ensures
        last_solid(s, i, end) matches Some(p) ==> i <= p < end && !whitespace(s[p]) && (forall|
            k: int,
        |
            p < k < end ==> whitespace(s[k])),
        0 <= i && last_solid(s, i, end) is None ==> forall|k: int|
            i <= k < end ==> whitespace(s[k]),
    decreases end - i,
{
    if 0 <= i < end && whitespace(s[end - 1]) {
        lemma_last_solid_range(s, i, end - 1);
    }
}

/// The first and the last non-whitespace positions of a range bound each
/// other.
proof fn lemma_trim_ws_bounds(s: Seq<char>, i: int, end: int)
    ensures
        find_solid(s, i, end) matches Some(a) ==> {
            &&& last_solid(s, i, end) matches Some(b)
            &&& i <= a <= b < end
        },
{
    lemma_find_solid_range(s, i, end);
    lemma_last_solid_range(s, i, end);
}

fn first_solid_at(chars: &Vec<char>, i: usize, end: usize) -> (r: Option<usize>)
    requires
        end <= chars@.len(),
    ensures
        r matches Some(p) ==> find_solid(chars@, i as int, end as int) == Some(p as int) && i <= p
            < end,
        r is None ==> find_solid(chars@, i as int, end as int) is None,
{
    if i >= end {
        return None;
    }
    let mut cur = i;
    while cur < end
        invariant
            i <= cur <= end <= chars@.len(),
            find_solid(chars@, i as int, end as int) == find_solid(chars@, cur as int, end as int),
        decreases end - cur,
    {
        if !chars[cur].is_whitespace() {
            return Some(cur);
        }
        cur = cur + 1;
    }
    None
}

fn last_solid_at(chars: &Vec<char>, i: usize, end: usize) -> (r: Option<usize>)
    requires
        end <= chars@.len(),
    ensures
        r matches Some(p) ==> last_solid(chars@, i as int, end as int) == Some(p as int) && i <= p
            < end,
        r is None ==> last_solid(chars@, i as int, end as int) is None,
{
    if i >= end {
        return None;
    }
    let mut cur = end;
    while cur > i
        invariant
            i <= cur <= end <= chars@.len(),
            last_solid(chars@, i as int, end as int) == last_solid(chars@, i as int, cur as int),
        decreases cur,
    {
        if !chars[cur - 1].is_whitespace() {
            return Some(cur - 1);
        }
        cur = cur - 1;
    }
    None
}

/// A string holding `chars[i..end]` trimmed of leading and trailing
/// whitespace.
pub(crate) fn trim_ws_string(chars: &Vec<char>, i: usize, end: usize) -> (r: String)
    requires
        end <= chars@.len(),
    ensures
        r@ == trim_ws(chars@, i as int, end as int),
{
    proof {
        lemma_trim_ws_bounds(chars@, i as int, end as int);
    }
    match first_solid_at(chars, i, end) {
        None => String::new(),
        Some(a) => match last_solid_at(chars, i, end) {
            None => String::new(),
            Some(b) => string_range(chars, a, b + 1),
        },
    }
}

} // verus!
