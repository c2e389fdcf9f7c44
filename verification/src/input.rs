//! Encoding of the front end's key state into the 64-bit input bitmask
//! that the host passes to a guest's per-frame entry point: one bit per
//! recognized control, set exactly while that control is held.
use vstd::prelude::*;

verus! {

/// Build the input bitmask from the held state of the recognized controls,
/// listed in their fixed order: bit `i` of the mask is set exactly when
/// control `i` is held, and bits beyond the list stay clear.
#[verifier::loop_isolation(false)]
pub fn keys_to_bitmask(held: &Vec<bool>) -> (mask: u64)
    requires
        held@.len() <= 64,
    ensures
        forall|i: u64| i < held@.len() ==> (((mask >> i) & 1u64 == 1u64) == held@[i as int]),
        forall|i: u64| held@.len() <= i < 64 ==> (mask >> i) & 1u64 == 0u64,
{
    let mut mask: u64 = 0;
    proof {
        assert(forall|i: u64| i < 64 ==> (0u64 >> i) & 1u64 == 0u64) by (bit_vector);
    }
    let mut k: usize = 0;
    while k < held.len()
        invariant
            k <= held@.len(),
            forall|i: u64| i < k ==> (((mask >> i) & 1u64 == 1u64) == held@[i as int]),
            forall|i: u64| k <= i < 64 ==> (mask >> i) & 1u64 == 0u64,
        decreases held@.len() - k,
    {
        let ghost mask0 = mask;
        let kk = k as u64;
        if held[k] {
            mask = mask | (1u64 << kk);
            proof {
                assert forall|i: u64| i < k + 1 implies (((mask >> i) & 1u64 == 1u64) == held@[
                    i as int
                ]) by {
                    if i == kk {
                        assert(((mask0 | (1u64 << kk)) >> kk) & 1u64 == 1u64) by (bit_vector)
                            requires
                                kk < 64,
                        ;
                    } else {
                        assert(((mask0 | (1u64 << kk)) >> i) & 1u64 == (mask0 >> i) & 1u64)
                            by (bit_vector)
                            requires
                                i != kk && i < 64 && kk < 64,
                        ;
                    }
                }
                assert forall|i: u64| k + 1 <= i < 64 implies (mask >> i) & 1u64 == 0u64 by {
                    assert(((mask0 | (1u64 << kk)) >> i) & 1u64 == (mask0 >> i) & 1u64)
                        by (bit_vector)
                        requires
                            i != kk && i < 64 && kk < 64,
                    ;
                }
            }
        }
        k = k + 1;
    }
    mask
}

} // verus!
