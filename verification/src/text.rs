//! Character-sequence helpers shared by the engine: decimal rendering of
//! counters and substring search over rendered lines.

use vstd::prelude::*;

verus! {

/// The decimal digit character for a value below ten.
pub open spec fn digit_char(d: nat) -> char {
    if d == 0 { '0' }
    else if d == 1 { '1' }
    else if d == 2 { '2' }
    else if d == 3 { '3' }
    else if d == 4 { '4' }
    else if d == 5 { '5' }
    else if d == 6 { '6' }
    else if d == 7 { '7' }
    else if d == 8 { '8' }
    else { '9' }
}

/// The decimal digit characters of `n`, most significant first.
pub open spec fn dec_chars(n: nat) -> Seq<char>
    decreases n,
{
    if n < 10 {
        seq![digit_char(n)]
    } else {
        dec_chars(n / 10) + seq![digit_char(n % 10)]
    }
}

/// Renders `n` in decimal, most significant digit first.
pub fn push_decimal(out: &mut Vec<char>, n: u64)
    ensures
        final(out)@ == old(out)@ + dec_chars(n as nat),
    decreases n,
{
    if n < 10 {
        out.push(digit_of(n));
    } else {
        push_decimal(out, n / 10);
        out.push(digit_of(n % 10));
    }
}

fn digit_of(d: u64) -> (c: char)
    requires
        d < 10,
    ensures
        c == digit_char(d as nat),
{
    if d == 0 { '0' }
    else if d == 1 { '1' }
    else if d == 2 { '2' }
    else if d == 3 { '3' }
    else if d == 4 { '4' }
    else if d == 5 { '5' }
    else if d == 6 { '6' }
    else if d == 7 { '7' }
    else if d == 8 { '8' }
    else { '9' }
}

/// The needle `w` occurs in `r` starting at position `i`.
pub open spec fn matches_at(r: Seq<char>, w: Seq<char>, i: int) -> bool {
    &&& 0 <= i
    &&& i + w.len() <= r.len()
    &&& forall|j: int| 0 <= j < w.len() ==> r[i + j] == w[j]
}

/// The first occurrence of `w` in `r` at or after `from`, if any.
pub open spec fn find_at_or_after(r: Seq<char>, w: Seq<char>, from: int) -> Option<int>
    decreases r.len() - from,
{
    if from < 0 || from + w.len() > r.len() {
        None
    } else if matches_at(r, w, from) {
        Some(from)
    } else {
        find_at_or_after(r, w, from + 1)
    }
}

/// The last occurrence of `w` in `r` starting strictly before `before`, if any.
pub open spec fn rfind_before(r: Seq<char>, w: Seq<char>, before: int) -> Option<int>
    decreases before,
{
    if before <= 0 {
        None
    } else if before - 1 + w.len() <= r.len() && matches_at(r, w, before - 1) {
        Some(before - 1)
    } else {
        rfind_before(r, w, before - 1)
    }
}

/// A found position really is the first one at or after `from`.
pub proof fn lemma_find_sound(r: Seq<char>, w: Seq<char>, from: int)
    requires
        from >= 0,
    ensures
        match find_at_or_after(r, w, from) {
            Some(i) => matches_at(r, w, i) && i >= from
                && forall|j: int| from <= j < i ==> !matches_at(r, w, j),
            None => forall|j: int| j >= from ==> !matches_at(r, w, j),
        },
    decreases r.len() - from,
{
    if from + w.len() > r.len() {
        assert forall|j: int| j >= from implies !matches_at(r, w, j) by {}
    } else if matches_at(r, w, from) {
    } else {
        lemma_find_sound(r, w, from + 1);
    }
}

/// A found position really is the last one strictly before `before`.
pub proof fn lemma_rfind_sound(r: Seq<char>, w: Seq<char>, before: int)
    ensures
        match rfind_before(r, w, before) {
            Some(i) => matches_at(r, w, i) && i < before
                && forall|j: int| i < j < before ==> !matches_at(r, w, j),
            None => forall|j: int| 0 <= j < before ==> !matches_at(r, w, j),
        },
    decreases before,
{
    if before <= 0 {
    } else if before - 1 + w.len() <= r.len() && matches_at(r, w, before - 1) {
    } else {
        lemma_rfind_sound(r, w, before - 1);
    }
}

/// Compares `w` against `r` at position `i`.
pub fn is_match_at(r: &Vec<char>, w: &Vec<char>, i: usize) -> (b: bool)
    requires
        i + w@.len() <= r@.len(),
    ensures
        b == matches_at(r@, w@, i as int),
{
    let rlen = r.len();
    let mut j: usize = 0;
    while j < w.len()
        invariant
            i + w@.len() <= r@.len(),
            rlen == r@.len(),
            0 <= j <= w@.len(),
            forall|k: int| 0 <= k < j ==> r@[i + k] == w@[k],
        decreases w@.len() - j,
    {
        if r[i + j] != w[j] {
            assert(!matches_at(r@, w@, i as int));
            return false;
        }
        j += 1;
    }
    true
}

/// Finds the first occurrence of `w` in `r` at or after `from`.
pub fn find_from(r: &Vec<char>, w: &Vec<char>, from: usize) -> (res: Option<usize>)
    ensures
        match res {
            Some(i) => find_at_or_after(r@, w@, from as int) == Some(i as int),
            None => find_at_or_after(r@, w@, from as int).is_none(),
        },
{
    let mut i: usize = from;
    loop
        invariant
            from <= i,
            find_at_or_after(r@, w@, from as int) == find_at_or_after(r@, w@, i as int),
        decreases r@.len() + 1 - i,
    {
        if i > r.len() || w.len() > r.len() - i {
            return None;
        }
        if is_match_at(r, w, i) {
            return Some(i);
        }
        i += 1;
    }
}

/// Finds the last occurrence of `w` in `r` that starts strictly before `before`.
pub fn rfind_below(r: &Vec<char>, w: &Vec<char>, before: usize) -> (res: Option<usize>)
    ensures
        match res {
            Some(i) => rfind_before(r@, w@, before as int) == Some(i as int),
            None => rfind_before(r@, w@, before as int).is_none(),
        },
{
    let mut b: usize = before;
    loop
        invariant
            b <= before,
            rfind_before(r@, w@, before as int) == rfind_before(r@, w@, b as int),
        decreases b,
    {
        if b == 0 {
            return None;
        }
        if b - 1 <= r.len() && w.len() <= r.len() - (b - 1) && is_match_at(r, w, b - 1) {
            return Some(b - 1);
        }
        b -= 1;
    }
}

} // verus!
