//! Answer normalization: trim surrounding whitespace, lowercase ASCII
//! letters, and compare byte for byte.  Two submitted answers count as equal
//! exactly when their normalized forms are identical byte sequences; there is
//! no stemming, fuzzy matching, or punctuation stripping.

use vstd::prelude::*;

verus! {

/// ASCII whitespace: tab, line feed, vertical tab, form feed, carriage
/// return, space.
pub open spec fn is_ws_byte(b: u8) -> bool {
    b == 9 || b == 10 || b == 11 || b == 12 || b == 13 || b == 32
}

/// Locale-insensitive lowercasing of one byte: ASCII letters map to their
/// lowercase form, everything else is untouched.
pub open spec fn lower_byte(b: u8) -> u8 {
    if 65 <= b && b <= 90 {
        (b + 32) as u8
    } else {
        b
    }
}

/// Lowercase every byte of a sequence.
pub open spec fn lower_seq(s: Seq<u8>) -> Seq<u8> {
    s.map_values(|b: u8| lower_byte(b))
}

/// Drop leading whitespace.
pub open spec fn trim_front(s: Seq<u8>) -> Seq<u8>
    decreases s.len(),
{
    if s.len() > 0 && is_ws_byte(s[0]) {
        trim_front(s.subrange(1, s.len() as int))
    } else {
        s
    }
}

/// Drop trailing whitespace.
pub open spec fn trim_back(s: Seq<u8>) -> Seq<u8>
    decreases s.len(),
{
    if s.len() > 0 && is_ws_byte(s[s.len() - 1]) {
        trim_back(s.subrange(0, s.len() - 1))
    } else {
        s
    }
}

/// The canonical comparison form of an answer: whitespace trimmed from both
/// ends, then lowercased.
pub open spec fn spec_normalize(s: Seq<u8>) -> Seq<u8> {
    lower_seq(trim_back(trim_front(s)))
}

/// Trimming the front keeps exactly the suffix that starts at the first
/// non-whitespace byte.
proof fn lemma_trim_front_skip(s: Seq<u8>, i: int)
    requires
        0 <= i <= s.len(),
        forall|k: int| 0 <= k < i ==> is_ws_byte(s[k]),
        i < s.len() ==> !is_ws_byte(s[i]),
    ensures
        trim_front(s) == s.subrange(i, s.len() as int),
    decreases i,
{
    if i == 0 {
        assert(s.subrange(0, s.len() as int) =~= s);
    } else {
        let t = s.subrange(1, s.len() as int);
        lemma_trim_front_skip(t, i - 1);
        assert(t.subrange(i - 1, t.len() as int) =~= s.subrange(i, s.len() as int));
    }
}

/// Trimming the back keeps exactly the prefix that ends at the last
/// non-whitespace byte.
proof fn lemma_trim_back_take(s: Seq<u8>, j: int)
    requires
        0 <= j <= s.len(),
        forall|k: int| j <= k < s.len() ==> is_ws_byte(s[k]),
        j > 0 ==> !is_ws_byte(s[j - 1]),
    ensures
        trim_back(s) == s.subrange(0, j),
    decreases s.len() - j,
{
    if j == s.len() {
        assert(s.subrange(0, s.len() as int) =~= s);
    } else {
        let t = s.subrange(0, s.len() - 1);
        lemma_trim_back_take(t, j);
        assert(t.subrange(0, j) =~= s.subrange(0, j));
    }
}

/// A trimmed-front sequence never starts with whitespace.
proof fn lemma_trim_front_head(s: Seq<u8>)
    ensures
        trim_front(s).len() > 0 ==> !is_ws_byte(trim_front(s)[0]),
    decreases s.len(),
{
    if s.len() > 0 && is_ws_byte(s[0]) {
        lemma_trim_front_head(s.subrange(1, s.len() as int));
    }
}

/// A trimmed-back sequence never ends with whitespace.
proof fn lemma_trim_back_last(s: Seq<u8>)
    ensures
        trim_back(s).len() > 0 ==> !is_ws_byte(trim_back(s)[trim_back(s).len() - 1]),
    decreases s.len(),
{
    if s.len() > 0 && is_ws_byte(s[s.len() - 1]) {
        lemma_trim_back_last(s.subrange(0, s.len() - 1));
    }
}

/// Trimming the back keeps the first byte of a nonempty result.
proof fn lemma_trim_back_head(s: Seq<u8>)
    ensures
        trim_back(s).len() > 0 ==> trim_back(s)[0] == s[0],
    decreases s.len(),
{
    if s.len() > 0 && is_ws_byte(s[s.len() - 1]) {
        lemma_trim_back_head(s.subrange(0, s.len() - 1));
    }
}

/// Lowercasing is idempotent on bytes and never turns whitespace into
/// non-whitespace or back.
proof fn lemma_lower_byte_facts()
    ensures
        forall|b: u8| #[trigger] lower_byte(lower_byte(b)) == lower_byte(b),
        forall|b: u8| #[trigger] is_ws_byte(lower_byte(b)) == is_ws_byte(b),
{
}

/// Normalization is idempotent: normalizing a normalized answer changes
/// nothing.
pub proof fn lemma_normalize_idempotent(s: Seq<u8>)
    ensures
        spec_normalize(spec_normalize(s)) == spec_normalize(s),
{
    lemma_lower_byte_facts();
    let f = trim_front(s);
    let t = trim_back(f);
    let u = lower_seq(t);
    lemma_trim_front_head(s);
    lemma_trim_back_head(f);
    lemma_trim_back_last(f);
    if u.len() > 0 {
        assert(u[0] == lower_byte(t[0]));
        assert(!is_ws_byte(u[0]));
        assert(u[u.len() - 1] == lower_byte(t[t.len() - 1]));
        assert(!is_ws_byte(u[u.len() - 1]));
    }
    assert(trim_front(u) == u);
    assert(trim_back(u) == u);
    assert(lower_seq(u) =~= u);
}

/// Whether a byte is ASCII whitespace.
fn is_ws(b: u8) -> (r: bool)
    ensures
        r == is_ws_byte(b),
{
    b == 9 || b == 10 || b == 11 || b == 12 || b == 13 || b == 32
}

/// Lowercase one byte.
fn lower(b: u8) -> (r: u8)
    ensures
        r == lower_byte(b),
{
    if 65 <= b && b <= 90 {
        b + 32
    } else {
        b
    }
}

/// Reduce a submitted answer to its canonical comparison form: trim
/// surrounding ASCII whitespace, then lowercase ASCII letters.
pub fn normalize(s: &Vec<u8>) -> (r: Vec<u8>)
    ensures
        r@ == spec_normalize(s@),
{
    let n: usize = s.len();
    let mut i: usize = 0;
    while i < n && is_ws(s[i])
        invariant
            0 <= i <= n,
            n == s@.len(),
            forall|k: int| 0 <= k < i ==> is_ws_byte(s@[k]),
        decreases n - i,
    {
        i = i + 1;
    }
    let mut j: usize = n;
    while j > i && is_ws(s[j - 1])
        invariant
            i <= j <= n,
            n == s@.len(),
            forall|k: int| j <= k < n ==> is_ws_byte(s@[k]),
        decreases j,
    {
        j = j - 1;
    }
    proof {
        lemma_trim_front_skip(s@, i as int);
        let f = s@.subrange(i as int, n as int);
        lemma_trim_back_take(f, j - i);
        assert(f.subrange(0, j - i) =~= s@.subrange(i as int, j as int));
    }
    let mut out: Vec<u8> = Vec::new();
    let mut k: usize = i;
    while k < j
        invariant
            i <= k <= j <= n,
            n == s@.len(),
            out@.len() == k - i,
            forall|m: int| 0 <= m < out@.len() ==> out@[m] == lower_byte(s@[i + m]),
        decreases j - k,
    {
        let c: u8 = lower(s[k]);
        out.push(c);
        k = k + 1;
    }
    proof {
        assert(out@ =~= lower_seq(s@.subrange(i as int, j as int)));
    }
    out
}

/// Byte-for-byte equality of two byte strings.
pub fn bytes_eq(a: &Vec<u8>, b: &Vec<u8>) -> (r: bool)
    ensures
        r == (a@ == b@),
{
    if a.len() != b.len() {
        return false;
    }
    let n: usize = a.len();
    let mut k: usize = 0;
    while k < n
        invariant
            0 <= k <= n,
            n == a@.len() && n == b@.len(),
            forall|m: int| 0 <= m < k ==> a@[m] == b@[m],
        decreases n - k,
    {
        if a[k] != b[k] {
            return false;
        }
        k = k + 1;
    }
    proof {
        assert(a@ =~= b@);
    }
    true
}

/// A fresh byte string with the same contents.
pub fn copy_bytes(v: &Vec<u8>) -> (r: Vec<u8>)
    ensures
        r@ == v@,
{
    let n: usize = v.len();
    let mut out: Vec<u8> = Vec::new();
    let mut k: usize = 0;
    while k < n
        invariant
            0 <= k <= n,
            n == v@.len(),
            out@.len() == k,
            forall|m: int| 0 <= m < k ==> out@[m] == v@[m],
        decreases n - k,
    {
        let c: u8 = v[k];
        out.push(c);
        k = k + 1;
    }
    proof {
        assert(out@ =~= v@);
    }
    out
}

} // verus!
