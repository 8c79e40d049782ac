use vstd::prelude::*;

verus! {

/// The characters of `s` as a vector, in order.
pub fn chars_of(s: &str) -> (r: Vec<char>)
    ensures
        r@ == s@,
{
    let n = s.unicode_len();
    let mut r: Vec<char> = Vec::new();
    let mut i: usize = 0;
    while i < n
        invariant
            n == s@.len(),
            i <= n,
            r@ == s@.subrange(0, i as int),
        decreases n - i,
    {
        r.push(s.get_char(i));
        assert(s@.subrange(0, i + 1 as int) =~= s@.subrange(0, i as int).push(s@[i as int]));
        i = i + 1;
    }
    assert(r@ =~= s@);
    r
}

/// Whether `kw` occurs in `text` as a contiguous run of characters.
pub open spec fn contains_seq(text: Seq<char>, kw: Seq<char>) -> bool {
    exists|i: int|
        0 <= i && i + kw.len() <= text.len() && #[trigger] text.subrange(i, i + kw.len()) == kw
}

/// Whether `kw` stands at position `i` of `text`.
fn match_at(text: &Vec<char>, kw: &Vec<char>, i: usize) -> (r: bool)
    requires
        i + kw@.len() <= text@.len(),
    ensures
        r == (text@.subrange(i as int, i + kw@.len()) == kw@),
{
    let n = text.len();
    let k = kw.len();
    let mut j: usize = 0;
    while j < k
        invariant
            n == text@.len(),
            k == kw@.len(),
            i + k <= n,
            j <= k,
            forall|t: int| 0 <= t < j ==> text@[i + t] == kw@[t],
        decreases k - j,
    {
        if text[i + j] != kw[j] {
            assert(text@.subrange(i as int, i + kw@.len())[j as int] != kw@[j as int]);
            return false;
        }
        j = j + 1;
    }
    assert(text@.subrange(i as int, i + kw@.len()) =~= kw@);
    true
}

/// Whether `kw` occurs in `text` as a contiguous run of characters.
pub fn contains_chars(text: &Vec<char>, kw: &Vec<char>) -> (r: bool)
    ensures
        r == contains_seq(text@, kw@),
{
    if kw.len() == 0 {
        assert(contains_seq(text@, kw@)) by {
            assert(text@.subrange(0, 0 + kw@.len() as int) =~= kw@);
        }
        return true;
    }
    if kw.len() > text.len() {
        return false;
    }
    let n = text.len();
    let last = n - kw.len();
    let mut i: usize = 0;
    while i <= last
        invariant
            n == text@.len(),
            1 <= kw@.len() <= n,
            last == n - kw@.len(),
            i <= last + 1,
            forall|k: int| 0 <= k < i ==> #[trigger] text@.subrange(k, k + kw@.len()) != kw@,
        decreases last + 1 - i,
    {
        if match_at(text, kw, i) {
            return true;
        }
        i = i + 1;
    }
    false
}

} // verus!
