//! Shifting text along keyboard rows: each character is replaced by its left
//! or right neighbour on its keyboard row (wrapping around), and characters
//! on no row are kept.
//!
//! A character is located on a row by its low byte, as the rows are byte
//! sequences.

use vstd::prelude::*;

use crate::strutil;

verus! {

/// The low byte of a character: how it is looked up in a keyboard row.
pub open spec fn byte_of(c: char) -> u8 {
    (c as u32 % 256) as u8
}

/// Position of the first occurrence of `b` in `row[k..]`.
pub open spec fn find_pos(row: Seq<u8>, b: u8, k: int) -> Option<int>
    decreases row.len() - k,
{
    if k < 0 || k >= row.len() {
        None
    } else if row[k] == b {
        Some(k)
    } else {
        find_pos(row, b, k + 1)
    }
}

/// The neighbour of `c` on one row: to the left (wrapping to the row's end)
/// or to the right (wrapping to the row's start); nothing if `c` is not on
/// the row.
pub open spec fn shifted_in_row(row: Seq<u8>, c: char, left: bool) -> Option<char> {
    match find_pos(row, byte_of(c), 0) {
        None => None,
        Some(p) => if left {
            if p > 0 {
                Some(row[p - 1] as char)
            } else {
                Some(row[row.len() - 1] as char)
            }
        } else {
            if p + 1 < row.len() {
                Some(row[p + 1] as char)
            } else {
                Some(row[0] as char)
            }
        },
    }
}

/// The keyboard rows, tried in order.
pub open spec fn keyboard_rows() -> Seq<Seq<u8>> {
    seq![
        seq![113u8, 119u8, 101u8, 114u8, 116u8, 121u8, 117u8, 105u8, 111u8, 112u8],
        seq![81u8, 87u8, 69u8, 82u8, 84u8, 89u8, 85u8, 73u8, 79u8, 80u8],
        seq![97u8, 115u8, 100u8, 102u8, 103u8, 104u8, 106u8, 107u8, 108u8],
        seq![65u8, 83u8, 68u8, 70u8, 71u8, 72u8, 74u8, 75u8, 76u8],
        seq![122u8, 120u8, 99u8, 118u8, 98u8, 110u8, 109u8],
        seq![90u8, 88u8, 67u8, 86u8, 66u8, 78u8, 77u8],
        seq![49u8, 50u8, 51u8, 52u8, 53u8, 54u8, 55u8, 56u8, 57u8, 48u8],
    ]
}

/// The shift of `c` decided by the first row (from `k` on) that contains it;
/// `c` itself if no row does.
pub open spec fn shift_char_from(rows: Seq<Seq<u8>>, c: char, left: bool, k: int) -> char
    decreases rows.len() - k,
{
    if k < 0 || k >= rows.len() {
        c
    } else {
        match shifted_in_row(rows[k], c, left) {
            Some(d) => d,
            None => shift_char_from(rows, c, left, k + 1),
        }
    }
}

pub open spec fn shift_char(c: char, left: bool) -> char {
    shift_char_from(keyboard_rows(), c, left, 0)
}

/// A whole text, shifted character by character.
pub open spec fn shifted_text(s: Seq<char>, left: bool) -> Seq<char> {
    s.map_values(|c: char| shift_char(c, left))
}

/// The left neighbour of `c`'s position in `seq`, wrapping around.
pub fn find_shl(seq: &[u8], c: char) -> (r: Option<char>)
    ensures
        r == shifted_in_row(seq@, c, true),
{
    find_shifted(seq, c, true)
}

/// The right neighbour of `c`'s position in `seq`, wrapping around.
pub fn find_shr(seq: &[u8], c: char) -> (r: Option<char>)
    ensures
        r == shifted_in_row(seq@, c, false),
{
    find_shifted(seq, c, false)
}

fn find_shifted(seq: &[u8], c: char, left: bool) -> (r: Option<char>)
    ensures
        r == shifted_in_row(seq@, c, left),
{
    let b = ((c as u32) % 256) as u8;
    let n = seq.len();
    let mut k: usize = 0;
    while k < n
        invariant
            k <= n == seq@.len(),
            find_pos(seq@, byte_of(c), 0) == find_pos(seq@, byte_of(c), k as int),
            b == byte_of(c),
        decreases n - k,
    {
        if seq[k] == b {
            if left {
                if k > 0 {
                    return Some(seq[k - 1] as char);
                } else {
                    return Some(seq[n - 1] as char);
                }
            } else {
                if k + 1 < n {
                    return Some(seq[k + 1] as char);
                } else {
                    return Some(seq[0] as char);
                }
            }
        }
        k = k + 1;
    }
    None
}

/// Shift every character of a text along its keyboard row.
pub fn driver(txt: &str, left: bool) -> (r: String)
    ensures
        r@ == shifted_text(txt@, left),
{
    let rows: Vec<Vec<u8>> = vec![
        vec![113u8, 119u8, 101u8, 114u8, 116u8, 121u8, 117u8, 105u8, 111u8, 112u8],
        vec![81u8, 87u8, 69u8, 82u8, 84u8, 89u8, 85u8, 73u8, 79u8, 80u8],
        vec![97u8, 115u8, 100u8, 102u8, 103u8, 104u8, 106u8, 107u8, 108u8],
        vec![65u8, 83u8, 68u8, 70u8, 71u8, 72u8, 74u8, 75u8, 76u8],
        vec![122u8, 120u8, 99u8, 118u8, 98u8, 110u8, 109u8],
        vec![90u8, 88u8, 67u8, 86u8, 66u8, 78u8, 77u8],
        vec![49u8, 50u8, 51u8, 52u8, 53u8, 54u8, 55u8, 56u8, 57u8, 48u8],
    ];
    proof {
        assert(rows@.map_values(|v: Vec<u8>| v@) =~~= keyboard_rows());
    }
    let len = txt.unicode_len();
    let mut out = String::new();
    let mut i: usize = 0;
    while i < len
        invariant
            i <= len,
            len == txt@.len(),
            rows@.map_values(|v: Vec<u8>| v@) == keyboard_rows(),
            out@ == shifted_text(txt@.subrange(0, i as int), left),
        decreases len - i,
    {
        let c = txt.get_char(i);
        let d = shift_one(&rows, c, left);
        strutil::push_char(&mut out, d);
        proof {
            assert(shifted_text(txt@.subrange(0, i + 1 as int), left) =~= shifted_text(
                txt@.subrange(0, i as int),
                left,
            ).push(shift_char(txt@[i as int], left)));
        }
        i = i + 1;
    }
    proof {
        assert(txt@.subrange(0, len as int) =~= txt@);
    }
    out
}

fn shift_one(rows: &Vec<Vec<u8>>, c: char, left: bool) -> (r: char)
    requires
        rows@.map_values(|v: Vec<u8>| v@) == keyboard_rows(),
    ensures
        r == shift_char(c, left),
{
    let n = rows.len();
    let mut k: usize = 0;
    proof {
        assert(n == keyboard_rows().len());
    }
    while k < n
        invariant
            k <= n == rows@.len(),
            rows@.map_values(|v: Vec<u8>| v@) == keyboard_rows(),
            shift_char(c, left) == shift_char_from(keyboard_rows(), c, left, k as int),
        decreases n - k,
    {
        proof {
            assert(keyboard_rows()[k as int] == rows@[k as int]@);
        }
        match find_shifted(rows[k].as_slice(), c, left) {
            Some(d) => {
                return d;
            },
            None => {},
        }
        k = k + 1;
    }
    c
}

/// The text with every character shifted one key to the left.
pub fn shl(txt: &str) -> (r: String)
    ensures
        r@ == shifted_text(txt@, true),
{
    driver(txt, true)
}

/// The text with every character shifted one key to the right.
pub fn shr(txt: &str) -> (r: String)
    ensures
        r@ == shifted_text(txt@, false),
{
    driver(txt, false)
}

} // verus!
