use vstd::prelude::*;

verus! {

/// The byte sequence of an ASCII string, one byte per character.
pub open spec fn ascii_bytes(s: Seq<char>) -> Seq<u8> {
    Seq::new(s.len(), |i: int| s[i] as u8)
}

/// The views of a sequence of byte vectors.
pub open spec fn views(s: Seq<Vec<u8>>) -> Seq<Seq<u8>> {
    s.map_values(|v: Vec<u8>| v@)
}

/// Copies an ASCII literal into a byte vector.
pub fn lit_bytes(s: &str) -> (v: Vec<u8>)
    requires
        vstd::string::is_ascii(s),
    ensures
        v@ == ascii_bytes(s@),
{
    proof {
        broadcast use vstd::string::is_ascii_spec_bytes;
    }
    let v = vstd::slice::slice_to_vec(s.as_bytes());
    proof {
        assert(v@ =~= ascii_bytes(s@));
    }
    v
}

/// Decides equality of two byte vectors.
pub fn bytes_eq(a: &Vec<u8>, b: &Vec<u8>) -> (r: bool)
    ensures
        r == (a@ == b@),
{
    if a.len() != b.len() {
        return false;
    }
    let mut i: usize = 0;
    while i < a.len()
        invariant
            a@.len() == b@.len(),
            i <= a@.len(),
            forall|k: int| 0 <= k < i ==> a@[k] == #[trigger] b@[k],
        decreases a.len() - i,
    {
        if a[i] != b[i] {
            return false;
        }
        i = i + 1;
    }
    proof {
        assert(a@ =~= b@);
    }
    true
}

/// Decides whether a byte vector spells an ASCII literal.
pub fn eq_lit(v: &Vec<u8>, s: &str) -> (r: bool)
    requires
        vstd::string::is_ascii(s),
    ensures
        r == (v@ == ascii_bytes(s@)),
{
    let l = lit_bytes(s);
    bytes_eq(v, &l)
}

/// Decides whether `v` begins with the bytes of an ASCII literal.
pub fn starts_with_lit(v: &Vec<u8>, s: &str) -> (r: bool)
    requires
        vstd::string::is_ascii(s),
    ensures
        r == (v@.len() >= s@.len() && v@.subrange(0, s@.len() as int) == ascii_bytes(s@)),
{
    let l = lit_bytes(s);
    if v.len() < l.len() {
        return false;
    }
    let mut i: usize = 0;
    while i < l.len()
        invariant
            v@.len() >= l@.len(),
            i <= l@.len(),
            l@ == ascii_bytes(s@),
            forall|k: int| 0 <= k < i ==> v@[k] == #[trigger] l@[k],
        decreases l.len() - i,
    {
        if v[i] != l[i] {
            proof {
                assert(v@.subrange(0, s@.len() as int)[i as int] != ascii_bytes(s@)[i as int]);
            }
            return false;
        }
        i = i + 1;
    }
    proof {
        assert(v@.subrange(0, s@.len() as int) =~= ascii_bytes(s@));
    }
    true
}

/// Copies the bytes of `v` between `i` (inclusive) and `j` (exclusive).
pub fn subvec(v: &Vec<u8>, i: usize, j: usize) -> (r: Vec<u8>)
    requires
        i <= j <= v@.len(),
    ensures
        r@ == v@.subrange(i as int, j as int),
{
    let mut r: Vec<u8> = Vec::new();
    let mut k: usize = i;
    while k < j
        invariant
            i <= k <= j <= v@.len(),
            r@ == v@.subrange(i as int, k as int),
        decreases j - k,
    {
        r.push(v[k]);
        proof {
            assert(r@ =~= v@.subrange(i as int, k + 1));
        }
        k = k + 1;
    }
    r
}

/// Copies a byte vector.
pub fn clone_bytes(v: &Vec<u8>) -> (r: Vec<u8>)
    ensures
        r@ == v@,
{
    let r = subvec(v, 0, v.len());
    proof {
        assert(v@.subrange(0, v@.len() as int) =~= v@);
    }
    r
}

/// Appends a copy of `src` to `dst`.
pub fn append_bytes(dst: &mut Vec<u8>, src: &Vec<u8>)
    ensures
        final(dst)@ == old(dst)@ + src@,
{
    let mut i: usize = 0;
    while i < src.len()
        invariant
            i <= src@.len(),
            dst@ == old(dst)@ + src@.subrange(0, i as int),
        decreases src.len() - i,
    {
        dst.push(src[i]);
        proof {
            assert(old(dst)@ + src@.subrange(0, i as int) + seq![src@[i as int]] =~= old(
                dst,
            )@ + src@.subrange(0, i + 1));
        }
        i = i + 1;
    }
    proof {
        assert(src@.subrange(0, src@.len() as int) =~= src@);
    }
}

/// Appends the bytes of an ASCII literal to `dst`.
pub fn push_lit(dst: &mut Vec<u8>, s: &str)
    requires
        vstd::string::is_ascii(s),
    ensures
        final(dst)@ == old(dst)@ + ascii_bytes(s@),
{
    let l = lit_bytes(s);
    append_bytes(dst, &l);
}

/// The decimal digits of `n`, most significant first.
pub open spec fn dec_digits(n: nat) -> Seq<u8>
    decreases n,
{
    if n < 10 {
        seq![(48 + n) as u8]
    } else {
        dec_digits(n / 10).push((48 + n % 10) as u8)
    }
}

/// Writes `n` in decimal.
pub fn u64_to_dec(n: u64) -> (v: Vec<u8>)
    ensures
        v@ == dec_digits(n as nat),
{
    let mut v: Vec<u8> = Vec::new();
    let mut m: u64 = n;
    proof {
        assert(dec_digits(n as nat) =~= dec_digits(m as nat) + v@);
    }
    while m >= 10
        invariant
            dec_digits(n as nat) == dec_digits(m as nat) + v@,
        decreases m,
    {
        let ghost v0 = v@;
        let d: u8 = 48 + (m % 10) as u8;
        v.insert(0, d);
        proof {
            assert(v@ =~= seq![d] + v0);
            assert(dec_digits(m as nat) =~= dec_digits((m / 10) as nat).push(d));
            assert(dec_digits((m / 10) as nat) + v@ =~= dec_digits(m as nat) + v0);
        }
        m = m / 10;
    }
    let ghost v0 = v@;
    let d: u8 = 48 + m as u8;
    v.insert(0, d);
    proof {
        assert(v@ =~= seq![d] + v0);
        assert(dec_digits(m as nat) =~= seq![d]);
        assert(dec_digits(n as nat) =~= v@);
    }
    v
}

} // verus!
