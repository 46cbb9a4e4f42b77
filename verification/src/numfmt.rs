//! Decimal rendering of counters for progress lines.

use vstd::prelude::*;

verus! {

/// The decimal digits of `n`, most significant first, as ASCII bytes.
pub open spec fn dec_rep(n: nat) -> Seq<u8>
    decreases n,
{
    if n < 10 {
        seq![(n + 48) as u8]
    } else {
        dec_rep(n / 10).push((n % 10 + 48) as u8)
    }
}

/// Renders `n` in decimal.
pub fn u64_to_dec(n: u64) -> (v: Vec<u8>)
    ensures
        v@ == dec_rep(n as nat),
{
    let mut tmp: Vec<u8> = Vec::new();
    let mut m: u64 = n;
    tmp.push((m % 10) as u8 + 48);
    proof {
        assert(tmp@.reverse() =~= seq![((n as nat % 10) + 48) as u8]);
        if n < 10 {
            assert(dec_rep(n as nat) == tmp@.reverse());
        } else {
            assert(dec_rep(n as nat) =~= dec_rep((n / 10) as nat) + tmp@.reverse());
        }
    }
    m = m / 10;
    while m > 0
        invariant
            tmp@.len() >= 1,
            m == 0 ==> dec_rep(n as nat) == tmp@.reverse(),
            m > 0 ==> dec_rep(n as nat) == dec_rep(m as nat) + tmp@.reverse(),
        decreases m,
    {
        let d: u8 = (m % 10) as u8 + 48;
        proof {
            assert(tmp@.push(d).reverse() =~= seq![d] + tmp@.reverse());
            if m >= 10 {
                assert(dec_rep(m as nat) == dec_rep((m / 10) as nat).push(d));
                assert(dec_rep((m / 10) as nat).push(d) + tmp@.reverse()
                    =~= dec_rep((m / 10) as nat) + (seq![d] + tmp@.reverse()));
            } else {
                assert(dec_rep(m as nat) =~= seq![d]);
            }
        }
        tmp.push(d);
        m = m / 10;
    }
    let mut v: Vec<u8> = Vec::new();
    let mut i = tmp.len();
    while i > 0
        invariant
            i <= tmp@.len(),
            v@.len() == tmp@.len() - i,
            forall|q: int| 0 <= q < v@.len() ==> v@[q] == tmp@[tmp@.len() - 1 - q],
        decreases i,
    {
        i = i - 1;
        v.push(tmp[i]);
    }
    proof {
        assert(v@ =~= tmp@.reverse());
    }
    v
}

} // verus!
