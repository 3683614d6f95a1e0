use vstd::prelude::*;

verus! {

/// A position-tracking view over a finite ordered sequence.
///
/// `next` consumes the element at the current position; `peek` and
/// `lookahead` read at or past the current position without consuming.
/// Consumption is monotonic: the position only ever moves forward.
pub struct LookAheadIterator<T: Clone> {
    data: Vec<T>,
    index: usize,
}

impl<T: Clone> LookAheadIterator<T> {
    /// The sequence the iterator was built over; it never changes.
    pub closed spec fn elements(&self) -> Seq<T> {
        self.data@
    }

    /// The current position.
    pub closed spec fn position(&self) -> int {
        self.index as int
    }

    /// The position never runs past the end of the sequence.
    pub closed spec fn wf(&self) -> bool {
        self.index <= self.data@.len()
    }

    pub fn new(data: Vec<T>) -> (r: Self)
        ensures
            r.elements() == data@,
            r.position() == 0,
            r.wf(),
    {
        LookAheadIterator { data, index: 0 }
    }

    /// The element at the current position, if any, without consuming it.
    pub fn peek(&self) -> (r: Option<&T>)
        requires
            self.wf(),
        ensures
            match r {
                Option::Some(x) => self.position() < self.elements().len() && *x
                    == self.elements()[self.position()],
                Option::None => self.position() >= self.elements().len(),
            },
    {
        self.lookahead(0)
    }

    /// The element `offset` places past the current position, if any,
    /// without consuming anything.
    pub fn lookahead(&self, offset: usize) -> (r: Option<&T>)
        requires
            self.wf(),
        ensures
            match r {
                Option::Some(x) => self.position() + offset < self.elements().len() && *x
                    == self.elements()[self.position() + offset],
                Option::None => self.position() + offset >= self.elements().len(),
            },
    {
        if offset < self.data.len() - self.index {
            Some(&self.data[self.index + offset])
        } else {
            None
        }
    }

    /// Consumes and returns the element at the current position, if any.
    pub fn next(&mut self) -> (r: Option<T>)
        requires
            old(self).wf(),
        ensures
            final(self).elements() == old(self).elements(),
            final(self).wf(),
            match r {
                Option::Some(x) => {
                    &&& old(self).position() < old(self).elements().len()
                    &&& vstd::pervasive::cloned(
                        old(self).elements()[old(self).position()],
                        x,
                    )
                    &&& final(self).position() == old(self).position() + 1
                },
                Option::None => {
                    &&& old(self).position() >= old(self).elements().len()
                    &&& final(self).position() == old(self).position()
                },
            },
    {
        if self.index < self.data.len() {
            self.index = self.index + 1;
            Some(self.data[self.index - 1].clone())
        } else {
            None
        }
    }
}

/// The position is an index into a finite sequence, so it is never
/// negative.
pub broadcast proof fn lemma_position_nonneg<T: Clone>(it: LookAheadIterator<T>)
    ensures
        0 <= #[trigger] it.position(),
{
}

/// What well-formedness guarantees to every caller: the position never
/// runs past the end of the sequence.
pub broadcast proof fn lemma_wf_position<T: Clone>(it: LookAheadIterator<T>)
    requires
        #[trigger] it.wf(),
    ensures
        it.position() <= it.elements().len(),
{
}

/// Conversion of an owned sequence into its lookahead iterator.
pub trait ToLookaheadIterator<T: Clone>: Sized {
    /// The elements the iterator will be built over.
    spec fn lookahead_elements(&self) -> Seq<T>;

    fn to_lookahead_iter(self) -> (r: LookAheadIterator<T>)
        ensures
            r.elements() == self.lookahead_elements(),
            r.position() == 0,
            r.wf(),
    ;
}

impl<T: Clone> ToLookaheadIterator<T> for Vec<T> {
    open spec fn lookahead_elements(&self) -> Seq<T> {
        self@
    }

    fn to_lookahead_iter(self) -> (r: LookAheadIterator<T>) {
        LookAheadIterator::new(self)
    }
}

} // verus!
