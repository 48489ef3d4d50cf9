//! Arithmetic that more than one part of the library needs.
use vstd::arithmetic::div_mod::{lemma_fundamental_div_mod, lemma_fundamental_div_mod_converse};
use vstd::prelude::*;

verus! {

/// The least number of parts of size `part` that hold `count` things.
pub open spec fn parts_to_hold(count: int, part: int) -> int {
    (count + part - 1) / part
}

/// What makes [`parts_to_hold`] the least number of parts: that many parts
/// hold all, and one part less does not.
pub proof fn lemma_parts_to_hold(count: int, part: int)
    requires
        count >= 0,
        part > 0,
    ensures
        0 <= parts_to_hold(count, part) <= count,
        parts_to_hold(count, part) * part >= count,
        (parts_to_hold(count, part) - 1) * part < count || count == 0,
        count == 0 <==> parts_to_hold(count, part) == 0,
        parts_to_hold(count, part) == count / part + (if count % part == 0 { 0int } else { 1int }),
{
    let whole = count / part;
    let rest = count % part;
    lemma_fundamental_div_mod(count, part);
    assert(part * whole == whole * part && (whole + 1) * part == whole * part + part && (whole - 1)
        * part == whole * part - part) by (nonlinear_arith);
    assert(whole >= 0 && whole <= whole * part && (whole == 0 ==> whole * part == 0))
        by (nonlinear_arith)
        requires
            count >= 0,
            part > 0,
            0 <= rest < part,
            count == part * whole + rest,
    ;
    if rest == 0 {
        lemma_fundamental_div_mod_converse(count + part - 1, part, whole, part - 1);
    } else {
        lemma_fundamental_div_mod_converse(count + part - 1, part, whole + 1, rest - 1);
    }
}

/// A number of parts that hold all, while one part less does not, is the
/// least number of parts.
pub proof fn lemma_parts_to_hold_unique(count: int, part: int, parts: int)
    requires
        count >= 0,
        part > 0,
        parts >= 0,
        parts * part >= count,
        parts == 0 || (parts - 1) * part < count,
    ensures
        parts == parts_to_hold(count, part),
{
    let least = parts_to_hold(count, part);
    lemma_parts_to_hold(count, part);
    if parts < least {
        assert(parts * part <= (least - 1) * part) by (nonlinear_arith)
            requires
                parts <= least - 1,
                part > 0,
        ;
    } else if parts > least {
        assert((parts - 1) * part >= least * part) by (nonlinear_arith)
            requires
                parts - 1 >= least,
                part > 0,
        ;
    }
}

/// The least number of parts of size `part` that hold `count` things.
pub fn div_ceil(count: u64, part: u64) -> (parts: u64)
    requires
        part > 0,
    ensures
        parts == parts_to_hold(count as int, part as int),
{
    proof {
        lemma_parts_to_hold(count as int, part as int);
    }
    if count % part == 0 {
        count / part
    } else {
        count / part + 1
    }
}

} // verus!
