//! Reduction of a signed 16-bit result buffer to its minimum and
//! maximum. The degenerate convention: over an empty buffer both
//! reductions are 0, by definition rather than by error.

use vstd::prelude::*;

verus! {

/// Minimum of a sequence of signed 16-bit values; 0 on the empty
/// sequence.
pub open spec fn min_spec(s: Seq<i16>) -> i16
    decreases s.len(),
{
    if s.len() == 0 {
        0i16
    } else if s.len() == 1 {
        s[0]
    } else {
        let m = min_spec(s.drop_last());
        if s.last() < m {
            s.last()
        } else {
            m
        }
    }
}

/// Maximum of a sequence of signed 16-bit values; 0 on the empty
/// sequence.
pub open spec fn max_spec(s: Seq<i16>) -> i16
    decreases s.len(),
{
    if s.len() == 0 {
        0i16
    } else if s.len() == 1 {
        s[0]
    } else {
        let m = max_spec(s.drop_last());
        if s.last() > m {
            s.last()
        } else {
            m
        }
    }
}

/// On a non-empty sequence, the minimum is one of the elements and is
/// a lower bound for all of them.
pub proof fn lemma_min_spec_properties(s: Seq<i16>)
    requires
        s.len() > 0,
    ensures
        s.contains(min_spec(s)),
        forall|i: int| 0 <= i < s.len() ==> min_spec(s) <= #[trigger] s[i],
    decreases s.len(),
{
    if s.len() == 1 {
        assert(s[0] == min_spec(s));
    } else {
        lemma_min_spec_properties(s.drop_last());
        let m = min_spec(s.drop_last());
        assert(s.drop_last().contains(m));
        let j = choose|j: int| 0 <= j < s.drop_last().len() && s.drop_last()[j] == m;
        if s.last() < m {
            assert(s[s.len() - 1] == min_spec(s));
        } else {
            assert(s[j] == min_spec(s));
        }
        assert forall|i: int| 0 <= i < s.len() implies min_spec(s) <= #[trigger] s[i] by {
            if i < s.len() - 1 {
                assert(s.drop_last()[i] == s[i]);
            }
        }
    }
}

/// On a non-empty sequence, the maximum is one of the elements and is
/// an upper bound for all of them.
pub proof fn lemma_max_spec_properties(s: Seq<i16>)
    requires
        s.len() > 0,
    ensures
        s.contains(max_spec(s)),
        forall|i: int| 0 <= i < s.len() ==> #[trigger] s[i] <= max_spec(s),
    decreases s.len(),
{
    if s.len() == 1 {
        assert(s[0] == max_spec(s));
    } else {
        lemma_max_spec_properties(s.drop_last());
        let m = max_spec(s.drop_last());
        assert(s.drop_last().contains(m));
        let j = choose|j: int| 0 <= j < s.drop_last().len() && s.drop_last()[j] == m;
        if s.last() > m {
            assert(s[s.len() - 1] == max_spec(s));
        } else {
            assert(s[j] == max_spec(s));
        }
        assert forall|i: int| 0 <= i < s.len() implies #[trigger] s[i] <= max_spec(s) by {
            if i < s.len() - 1 {
                assert(s.drop_last()[i] == s[i]);
            }
        }
    }
}

/// On a non-empty buffer the minimum never exceeds the maximum.
pub proof fn lemma_min_le_max(s: Seq<i16>)
    requires
        s.len() > 0,
    ensures
        min_spec(s) <= max_spec(s),
{
    lemma_min_spec_properties(s);
    lemma_max_spec_properties(s);
    let j = choose|j: int| 0 <= j < s.len() && s[j] == min_spec(s);
    assert(s[j] <= max_spec(s));
}

/// Smallest value held in the buffer; 0 when the buffer is empty.
#[verifier::loop_isolation(false)]
pub fn get_min(matrix: &Vec<i16>) -> (r: i16)
    ensures
        r == min_spec(matrix@),
        matrix@.len() == 0 ==> r == 0,
{
    if matrix.len() == 0 {
        return 0;
    }
    let mut m: i16 = matrix[0];
    let mut i: usize = 1;
    proof {
        assert(matrix@.subrange(0, 1) =~= seq![matrix@[0]]);
    }
    while i < matrix.len()
        invariant
            1 <= i <= matrix@.len(),
            m == min_spec(matrix@.subrange(0, i as int)),
        decreases matrix@.len() - i,
    {
        let v: i16 = matrix[i];
        proof {
            let pre = matrix@.subrange(0, i as int);
            let cur = matrix@.subrange(0, i + 1);
            assert(cur.drop_last() =~= pre);
            assert(cur.last() == matrix@[i as int]);
        }
        if v < m {
            m = v;
        }
        i = i + 1;
    }
    proof {
        assert(matrix@.subrange(0, matrix@.len() as int) =~= matrix@);
    }
    m
}

/// Largest value held in the buffer; 0 when the buffer is empty.
#[verifier::loop_isolation(false)]
pub fn get_max(matrix: &Vec<i16>) -> (r: i16)
    ensures
        r == max_spec(matrix@),
        matrix@.len() == 0 ==> r == 0,
{
    if matrix.len() == 0 {
        return 0;
    }
    let mut m: i16 = matrix[0];
    let mut i: usize = 1;
    proof {
        assert(matrix@.subrange(0, 1) =~= seq![matrix@[0]]);
    }
    while i < matrix.len()
        invariant
            1 <= i <= matrix@.len(),
            m == max_spec(matrix@.subrange(0, i as int)),
        decreases matrix@.len() - i,
    {
        let v: i16 = matrix[i];
        proof {
            let pre = matrix@.subrange(0, i as int);
            let cur = matrix@.subrange(0, i + 1);
            assert(cur.drop_last() =~= pre);
            assert(cur.last() == matrix@[i as int]);
        }
        if v > m {
            m = v;
        }
        i = i + 1;
    }
    proof {
        assert(matrix@.subrange(0, matrix@.len() as int) =~= matrix@);
    }
    m
}

} // verus!
