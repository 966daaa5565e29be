//! A pipe-delimited table: named columns and rows of cells.

use vstd::prelude::*;

verus! {

/// A parsed data table. Every row has exactly as many cells as the header
/// has column names; the constructors refuse anything else.
#[derive(Debug, PartialEq)]
pub struct DataTable {
    pub(crate) header: Vec<String>,
    pub(crate) rows: Vec<Vec<String>>,
}

/// Mathematical model of [`DataTable`].
pub ghost struct SpecTable {
    pub header: Seq<Seq<char>>,
    pub rows: Seq<Seq<Seq<char>>>,
}

impl SpecTable {
    /// Every row is exactly as wide as the header.
    pub open spec fn wf(self) -> bool {
        forall|i: int|
            0 <= i < self.rows.len() ==> #[trigger] self.rows[i].len() == self.header.len()
    }
}

impl View for DataTable {
    type V = SpecTable;

    closed spec fn view(&self) -> SpecTable {
        SpecTable { header: self.header.deep_view(), rows: self.rows.deep_view() }
    }
}

impl DeepView for DataTable {
    type V = SpecTable;

    open spec fn deep_view(&self) -> SpecTable {
        self.view()
    }
}

/// Copies a vector of strings, preserving its value.
pub(crate) fn clone_strings(v: &Vec<String>) -> (r: Vec<String>)
    ensures
        r@ == v@,
{
    let mut r: Vec<String> = Vec::new();
    let mut i: usize = 0;
    while i < v.len()
        invariant
            i <= v@.len(),
            r@ == v@.subrange(0, i as int),
        decreases v@.len() - i,
    {
        r.push(v[i].clone());
        proof {
            assert(r@ =~= v@.subrange(0, i + 1));
        }
        i += 1;
    }
    proof {
        assert(v@.subrange(0, v@.len() as int) =~= v@);
    }
    r
}

/// Copies a vector of rows, preserving the cell values.
pub(crate) fn clone_rows(v: &Vec<Vec<String>>) -> (r: Vec<Vec<String>>)
    ensures
        r.deep_view() == v.deep_view(),
{
    let mut r: Vec<Vec<String>> = Vec::new();
    let mut i: usize = 0;
    while i < v.len()
        invariant
            i <= v@.len(),
            r@.len() == i,
            r.deep_view() == v.deep_view().subrange(0, i as int),
        decreases v@.len() - i,
    {
        let x = clone_strings(&v[i]);
        proof {
            crate::lemma_vec_deep(&r);
        }
        let ghost prev = r@;
        r.push(x);
        proof {
            crate::lemma_vec_deep(&r);
            crate::lemma_seq_deep_push(prev, x);
            assert(x.deep_view() =~= v.deep_view()[i as int]);
            assert(r.deep_view() =~= v.deep_view().subrange(0, i + 1));
        }
        i += 1;
    }
    proof {
        assert(v.deep_view().subrange(0, v@.len() as int) =~= v.deep_view());
    }
    r
}

impl Clone for DataTable {
    /// Copies the table; the copy models the same table.
    fn clone(&self) -> (r: Self)
        ensures
            r@ == self@,
    {
        DataTable { header: clone_strings(&self.header), rows: clone_rows(&self.rows) }
    }
}

impl DataTable {
    /// Takes the table apart into its header and rows.
    pub(crate) fn into_parts(self) -> (r: (Vec<String>, Vec<Vec<String>>))
        ensures
            r.0.deep_view() == self@.header,
            r.1.deep_view() == self@.rows,
    {
        (self.header, self.rows)
    }

    /// An empty table with the given column names.
    pub fn new(header: Vec<String>) -> (r: Self)
        ensures
            r@.header == header.deep_view(),
            r@.rows == Seq::<Seq<Seq<char>>>::empty(),
            r@.wf(),
    {
        let r = Self { header, rows: Vec::new() };
        proof {
            assert(r@.rows =~= Seq::<Seq<Seq<char>>>::empty());
        }
        r
    }

    /// Builds a table from a header and rows. Succeeds exactly when every
    /// row is as wide as the header, and then returns the inputs unchanged.
    pub fn new_populated(header: Vec<String>, rows: Vec<Vec<String>>) -> (r: Option<Self>)
        ensures
            r is Some <==> (forall|i: int|
                0 <= i < rows@.len() ==> #[trigger] rows@[i]@.len() == header@.len()),
            r matches Some(t) ==> t@.header == header.deep_view() && t@.rows == rows.deep_view()
                && t@.wf(),
    {
        let mut i: usize = 0;
        while i < rows.len()
            invariant
                i <= rows@.len(),
                forall|j: int| 0 <= j < i ==> #[trigger] rows@[j]@.len() == header@.len(),
            decreases rows@.len() - i,
        {
            if rows[i].len() != header.len() {
                return None;
            }
            i += 1;
        }
        let r = Self { header, rows };
        Some(r)
    }

    /// Appends `row` when it is as wide as the header; otherwise leaves the
    /// table unchanged and reports failure.
    pub fn add_row(&mut self, row: Vec<String>) -> (r: Result<(), ()>)
        ensures
            r is Ok <==> row@.len() == old(self)@.header.len(),
            r is Ok ==> final(self)@.header == old(self)@.header && final(self)@.rows == old(
                self,
            )@.rows.push(row.deep_view()),
            r is Err ==> *final(self) == *old(self),
            old(self)@.wf() ==> final(self)@.wf(),
    {
        if row.len() == self.header.len() {
            let ghost pre = self@.rows;
            self.rows.push(row);
            proof {
                assert(self@.rows =~= pre.push(row.deep_view()));
            }
            Ok(())
        } else {
            Err(())
        }
    }

    /// The column names.
    pub fn header(&self) -> (r: &Vec<String>)
        ensures
            r.deep_view() == self@.header,
    {
        &self.header
    }

    /// The rows, in insertion order.
    pub fn rows(&self) -> (r: &Vec<Vec<String>>)
        ensures
            r.deep_view() == self@.rows,
    {
        &self.rows
    }
}

} // verus!
