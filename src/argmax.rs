use vstd::prelude::*;

verus! {

/// `m` is the first position of a largest element of `s`.
pub open spec fn is_first_max(s: Seq<i64>, m: int) -> bool {
    &&& 0 <= m < s.len()
    &&& forall|j: int| 0 <= j < s.len() ==> s[j] <= s[m]
    &&& forall|j: int| 0 <= j < m ==> s[j] < s[m]
}

/// The smallest index of a largest element, or `None` for an empty list.
/// Scores are compared through keys that keep their order.
pub fn argmax(keys: &[i64]) -> (r: Option<usize>)
    ensures
        keys@.len() == 0 <==> r is None,
        r matches Some(m) ==> is_first_max(keys@, m as int),
{
    if keys.len() == 0 {
        return None;
    }
    let mut best: usize = 0;
    let mut i: usize = 1;
    while i < keys.len()
        invariant
            1 <= i <= keys@.len(),
            best < i,
            forall|j: int| 0 <= j < i ==> keys@[j] <= keys@[best as int],
            forall|j: int| 0 <= j < best ==> keys@[j] < keys@[best as int],
        decreases keys@.len() - i,
    {
        if keys[i] > keys[best] {
            best = i;
        }
        i = i + 1;
    }
    Some(best)
}

} // verus!
