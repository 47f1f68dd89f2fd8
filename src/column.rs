use vstd::prelude::*;

verus! {

/// A list column: a flat buffer of values and the offsets that cut it into rows.
/// Row `i` holds `values[offsets[i] .. offsets[i + 1]]`.
#[derive(Debug, Clone)]
pub struct ListColumn<T> {
    pub values: Vec<T>,
    pub offsets: Vec<usize>,
}

impl<T> ListColumn<T> {
    /// Offsets start at zero, never decrease, and end at the length of the values.
    pub open spec fn wf(&self) -> bool {
        &&& self.offsets@.len() >= 1
        &&& self.offsets@[0] == 0
        &&& self.offsets@.last() == self.values@.len()
        &&& forall|i: int, j: int|
            0 <= i <= j < self.offsets@.len() ==> self.offsets@[i] <= self.offsets@[j]
    }

    pub open spec fn num_rows(&self) -> nat {
        (self.offsets@.len() - 1) as nat
    }

    pub open spec fn row(&self, i: int) -> Seq<T> {
        self.values@.subrange(self.offsets@[i] as int, self.offsets@[i + 1] as int)
    }

    /// The column seen as its sequence of rows.
    pub open spec fn rows(&self) -> Seq<Seq<T>> {
        Seq::new(self.num_rows(), |i: int| self.row(i))
    }

    /// Every row holds exactly `n` values.
    pub open spec fn uniform(&self, n: nat) -> bool {
        forall|i: int| 0 <= i <= self.num_rows() ==> self.offsets@[i] == i * n
    }

    /// A column with no rows.
    pub fn empty() -> (r: Self)
        ensures
            r.wf(),
            r.num_rows() == 0,
            r.values@.len() == 0,
    {
        let mut offsets: Vec<usize> = Vec::new();
        offsets.push(0);
        ListColumn { values: Vec::new(), offsets }
    }

    /// The number of rows, for a well-formed column.
    pub fn len(&self) -> (r: usize)
        requires
            self.wf(),
        ensures
            r == self.num_rows(),
    {
        self.offsets.len() - 1
    }

    /// Checks the offsets against the values; what `wf` states, computed.
    pub fn check(&self) -> (r: bool)
        ensures
            r == self.wf(),
    {
        let n = self.offsets.len();
        if n == 0 || self.offsets[0] != 0 || self.offsets[n - 1] != self.values.len() {
            return false;
        }
        let mut i: usize = 1;
        while i < n
            invariant
                1 <= i <= n,
                n == self.offsets@.len(),
                forall|a: int, b: int| 0 <= a <= b < i ==> self.offsets@[a] <= self.offsets@[b],
            decreases n - i,
        {
            if self.offsets[i - 1] > self.offsets[i] {
                return false;
            }
            i = i + 1;
        }
        true
    }
}

} // verus!
