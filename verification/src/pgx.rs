use vstd::prelude::*;

verus! {

/// A marker for the row shapes the stores hand back.
pub trait Row {

}

/// One row of a relational query, as plain text columns.
pub struct PgRow {
    row: Vec<String>,
}

impl View for PgRow {
    type V = Seq<Seq<char>>;

    closed spec fn view(&self) -> Seq<Seq<char>> {
        Seq::new(self.row@.len(), |i: int| self.row@[i]@)
    }
}

impl Row for PgRow {

}

impl PgRow {
    /// An empty row.
    pub fn new() -> (r: PgRow)
        ensures
            r@ =~= Seq::<Seq<char>>::empty(),
    {
        PgRow { row: Vec::new() }
    }

    /// Appends one column value.
    pub fn push_value(&mut self, value: String)
        ensures
            final (self)@ =~= old(self)@.push(value@),
    {
        self.row.push(value);
    }

    /// The column at `index`.
    pub fn get(&self, index: usize) -> (r: String)
        requires
            index < self@.len(),
        ensures
            r@ == self@[index as int],
    {
        self.row[index].clone()
    }

    /// How many columns the row holds.
    pub fn len(&self) -> (r: usize)
        ensures
            r == self@.len(),
    {
        self.row.len()
    }
}

} // verus!
