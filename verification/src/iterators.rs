//! The three traversal protocols over a matrix's elements, all in
//! row-major storage order: owning, borrowing, and mutable.

use vstd::prelude::*;

use crate::Matrix;

verus! {

broadcast use vstd::std_specs::vec::group_vec_axioms;

/// Borrowing traversal: yields each element by value, in storage order,
/// without consuming the matrix. Restartable by building a fresh iterator.
pub struct MatrixRefIterator<'a> {
    pub parent: &'a Matrix,
    pub index: usize,
}

impl<'a> MatrixRefIterator<'a> {
    /// Start a traversal at the first element.
    pub fn new(parent: &'a Matrix) -> (it: MatrixRefIterator<'a>)
        ensures
            it.parent == parent,
            it.index == 0,
    {
        MatrixRefIterator { parent, index: 0 }
    }

    /// The next element in storage order, or `None` once every element
    /// has been visited.
    pub fn next(&mut self) -> (r: Option<i64>)
        ensures
            final(self).parent == old(self).parent,
            old(self).index < old(self).parent.data@.len() ==> {
                &&& r == Some(old(self).parent.data@[old(self).index as int])
                &&& final(self).index == old(self).index + 1
            },
            old(self).index >= old(self).parent.data@.len() ==> {
                &&& r is None
                &&& final(self).index == old(self).index
            },
    {
        if self.index < self.parent.data.len() {
            let v = self.parent.data[self.index];
            self.index = self.index + 1;
            Some(v)
        } else {
            None
        }
    }
}

/// Owning traversal: consumes the matrix and yields each element by value
/// exactly once, in storage order. Finite and not restartable.
pub struct MatrixIntoIterator {
    pub data: Vec<i64>,
    pub index: usize,
}

impl MatrixIntoIterator {
    /// Take the matrix apart and start at its first element.
    pub fn new(m: Matrix) -> (it: MatrixIntoIterator)
        ensures
            it.data@ == m.data@,
            it.index == 0,
    {
        MatrixIntoIterator { data: m.data, index: 0 }
    }

    /// The next element in storage order, or `None` once every element
    /// has been yielded.
    pub fn next(&mut self) -> (r: Option<i64>)
        ensures
            final(self).data@ == old(self).data@,
            old(self).index < old(self).data@.len() ==> {
                &&& r == Some(old(self).data@[old(self).index as int])
                &&& final(self).index == old(self).index + 1
            },
            old(self).index >= old(self).data@.len() ==> {
                &&& r is None
                &&& final(self).index == old(self).index
            },
    {
        if self.index < self.data.len() {
            let v = self.data[self.index];
            self.index = self.index + 1;
            Some(v)
        } else {
            None
        }
    }
}

/// Mutable traversal: takes exclusive ownership of the matrix and hands
/// out read and write access to one element at a time, in storage order.
/// Elements already passed can no longer be touched, and the matrix comes
/// back whole through [`MatrixMutRefIterator::finish`].
pub struct MatrixMutRefIterator {
    pub matrix: Matrix,
    pub index: usize,
}

impl MatrixMutRefIterator {
    /// Take exclusive ownership and stand on the first element.
    pub fn new(m: Matrix) -> (it: MatrixMutRefIterator)
        ensures
            it.matrix == m,
            it.index == 0,
    {
        MatrixMutRefIterator { matrix: m, index: 0 }
    }

    /// Whether an element remains under the cursor.
    pub fn has_next(&self) -> (r: bool)
        ensures
            r <==> self.index < self.matrix.data@.len(),
    {
        self.index < self.matrix.data.len()
    }

    /// The element under the cursor.
    pub fn read(&self) -> (r: i64)
        requires
            self.index < self.matrix.data@.len(),
        ensures
            r == self.matrix.data@[self.index as int],
    {
        self.matrix.data[self.index]
    }

    /// Overwrite the element under the cursor; every other element and
    /// the cursor itself stay put.
    pub fn write(&mut self, value: i64)
        requires
            old(self).index < old(self).matrix.data@.len(),
        ensures
            final(self).index == old(self).index,
            final(self).matrix.nb_lines == old(self).matrix.nb_lines,
            final(self).matrix.nb_columns == old(self).matrix.nb_columns,
            final(self).matrix.data@ == old(self).matrix.data@.update(
                old(self).index as int,
                value,
            ),
    {
        self.matrix.data.set(self.index, value);
    }

    /// Step past the element under the cursor, giving up access to it.
    pub fn advance(&mut self)
        requires
            old(self).index < old(self).matrix.data@.len(),
        ensures
            final(self).matrix == old(self).matrix,
            final(self).index == old(self).index + 1,
    {
        let total = self.matrix.data.len();
        proof {
            assert(self.index < total);
        }
        self.index = self.index + 1;
    }

    /// End the traversal and hand the matrix back.
    pub fn finish(self) -> (r: Matrix)
        ensures
            r == self.matrix,
    {
        self.matrix
    }
}

impl Matrix {
    /// Whether every element is the additive identity.
    pub fn is_zero(&self) -> (r: bool)
        requires
            self.wf(),
        ensures
            r <==> (forall|k: int| 0 <= k < self.data@.len() ==> self.data@[k] == 0),
    {
        let mut it = MatrixRefIterator::new(self);
        loop
            invariant_except_break
                it.parent == self,
                it.index <= self.data@.len(),
                forall|t: int| 0 <= t < it.index ==> self.data@[t] == 0,
            ensures
                forall|k: int| 0 <= k < self.data@.len() ==> self.data@[k] == 0,
            decreases self.data@.len() - it.index,
        {
            match it.next() {
                Some(v) => {
                    if v != 0 {
                        return false;
                    }
                },
                None => { break ; },
            }
        }
        true
    }

    /// Reset every element to the additive identity, keeping the shape.
    pub fn set_zero(&mut self)
        requires
            old(self).wf(),
        ensures
            final(self).wf(),
            final(self).nb_lines == old(self).nb_lines,
            final(self).nb_columns == old(self).nb_columns,
            forall|k: int| 0 <= k < final(self).data@.len() ==> final(self).data@[k] == 0,
    {
        let mut k: usize = 0;
        let len = self.data.len();
        while k < len
            invariant
                len == self.data@.len(),
                self.wf(),
                self.nb_lines == old(self).nb_lines,
                self.nb_columns == old(self).nb_columns,
                k <= len,
                forall|t: int| 0 <= t < k ==> self.data@[t] == 0,
            decreases len - k,
        {
            self.data.set(k, 0);
            k = k + 1;
        }
    }
}

} // verus!
