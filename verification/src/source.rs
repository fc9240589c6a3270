//! The record-producing sources behind a resolved input: a single source, or
//! an ordered aggregate iterated as one stream.

use vstd::prelude::*;

verus! {

/// The capability this crate consumes from the record-parsing collaborator:
/// pull the next record, or signal exhaustion with `None`. How a byte stream
/// becomes records is the implementor's business, not this crate's.
pub trait RecordSource {
    type Record;

    fn next_record(&mut self) -> Option<Self::Record>;
}

/// An ordered aggregate of record-producing sources and a cursor into it,
/// presenting the sources as one merged stream.
pub struct Readers<R> {
    pub readers: Vec<R>,
    pub cursor: usize,
}

impl<R: RecordSource> Readers<R> {
    /// An aggregate of no sources; its stream is empty from the start.
    pub fn new() -> (r: Self)
        ensures
            r.readers@.len() == 0,
            r.cursor == 0,
    {
        Readers { readers: Vec::new(), cursor: 0 }
    }

    /// Pull from the source under the cursor; once a source is exhausted,
    /// move the cursor to the next one and retry, in order, until a record
    /// comes or every source is spent.
    pub fn iter_record(&mut self) -> (rec: Option<R::Record>)
        ensures
            final(self).readers@.len() == old(self).readers@.len(),
            old(self).cursor <= final(self).cursor,
            rec is Some ==> final(self).cursor < final(self).readers@.len(),
            rec is None ==> final(self).cursor >= final(self).readers@.len(),
            old(self).cursor >= old(self).readers@.len() ==> rec is None
                && *final(self) == *old(self),
            forall|k: int|
                0 <= k < final(self).readers@.len() && !(old(self).cursor <= k
                    <= final(self).cursor) ==> final(self).readers@[k] == old(self).readers@[k],
    {
        while self.cursor < self.readers.len()
            invariant
                self.readers@.len() == old(self).readers@.len(),
                old(self).cursor <= self.cursor,
                self.cursor <= self.readers@.len() || self.cursor == old(self).cursor,
                old(self).cursor >= old(self).readers@.len() ==> *self == *old(self),
                forall|k: int|
                    0 <= k < self.readers@.len() && !(old(self).cursor <= k <= self.cursor)
                        ==> self.readers@[k] == old(self).readers@[k],
            decreases self.readers@.len() - self.cursor,
        {
            let mut current = self.readers.remove(self.cursor);
            let rec = current.next_record();
            self.readers.insert(self.cursor, current);
            match rec {
                Some(x) => {
                    return Some(x);
                },
                None => {
                    self.cursor = self.cursor + 1;
                },
            }
        }
        None
    }
}

/// A resolved input: one record-producing source, or an ordered aggregate of
/// them, behind one "next record" operation.
pub enum Paths<R> {
    Reader(R),
    Readers(Readers<R>),
}

impl<R: RecordSource> Paths<R> {
    /// Pull the next record, from the single source or from the aggregate.
    pub fn iter_record(&mut self) -> (rec: Option<R::Record>)
        ensures
            ((*old(self)) is Reader <==> (*final(self)) is Reader),
            ((*old(self)) matches Paths::Readers(rs) ==> (*final(self)) matches Paths::Readers(fs)
                && fs.readers@.len() == rs.readers@.len() && rs.cursor <= fs.cursor && (rec
                is None ==> fs.cursor >= fs.readers@.len()) && (rs.cursor >= rs.readers@.len()
                ==> rec is None && fs == rs)),
    {
        match self {
            Paths::Reader(t) => t.next_record(),
            Paths::Readers(t) => t.iter_record(),
        }
    }
}

} // verus!
