use crate::stream_control::{Response, VecControl};
use crate::utf8_validator::{Utf8Control, Utf8Response};
use vstd::utf8::valid_utf8;
use vstd::prelude::*;

verus! {

broadcast use vstd::seq_lib::group_seq_properties;

/// A source that hands out the given segments one per load.
pub struct IteratorSource<T: Clone> {
    segments: Vec<Vec<T>>,
    next_index: usize,
}

impl<T: Clone + Default> IteratorSource<T> {
    pub closed spec fn segments(&self) -> Seq<Seq<T>> {
        self.segments@.map_values(|s: Vec<T>| s@)
    }

    /// How many segments were handed out.
    pub closed spec fn position(&self) -> nat {
        self.next_index as nat
    }

    pub open spec fn wf(&self) -> bool {
        self.position() <= self.segments().len()
    }

    pub fn new(segments: Vec<Vec<T>>) -> (r: Self)
        ensures
            r.wf(),
            r.segments() == segments@.map_values(|s: Vec<T>| s@),
            r.position() == 0,
    {
        Self { segments, next_index: 0 }
    }

    /// Writes clones of the next segment after the control's contents, or
    /// finishes once all segments were handed out.
    pub fn next<E>(&mut self, control: VecControl<T, E>, size_hint: usize) -> (r: Response<Vec<T>, E>)
        requires
            old(self).wf(),
        ensures
            final(self).wf(),
            final(self).segments() == old(self).segments(),
            old(self).position() == old(self).segments().len() ==> final(self).position()
                == old(self).position() && (r matches Response::Finish(b) && b@
                == control.contents()),
            old(self).position() < old(self).segments().len() ==> {
                let seg = old(self).segments()[old(self).position() as int];
                &&& final(self).position() == old(self).position() + 1
                &&& r matches Response::Advance(b) && b@.len() == control.contents().len()
                    + seg.len() && b@.take(control.contents().len() as int) == control.contents()
                    && forall|i: int|
                    0 <= i < seg.len() ==> cloned(
                        seg[i],
                        #[trigger] b@[control.contents().len() + i],
                    )
            },
    {
        if self.next_index >= self.segments.len() {
            return control.finish();
        }
        let seg = &self.segments[self.next_index];
        self.next_index = self.next_index + 1;
        let n = seg.len();
        let mut req = control.request_buffer(n);
        let ghost base = control.contents();
        let mut i: usize = 0;
        while i < n
            invariant
                i <= n,
                n == seg@.len(),
                req.earlier() == base,
                req.wf(),
                req.written().len() == n,
                forall|j: int| 0 <= j < i ==> cloned(seg@[j], #[trigger] req.written()[j]),
            decreases n - i,
        {
            let item = seg[i].clone();
            req.set(i, item);
            i = i + 1;
        }
        let r = req.advance(n);
        proof {
            let b = r->Advance_0;
            assert forall|j: int| 0 <= j < n implies cloned(seg@[j], #[trigger] b@[base.len() + j])
                by {
                assert(b@[base.len() + j] == req.written()[j]);
            }
        }
        r
    }
}

impl IteratorSource<u8> {
    /// Writes the next segment through a UTF-8 validating control, or
    /// finishes once all segments were handed out.
    pub fn next_utf8<E>(&mut self, control: Utf8Control<E>) -> (r: Utf8Response<E>)
        requires
            old(self).wf(),
            control.wf(),
            forall|i: int|
                0 <= i < old(self).segments().len() ==> (#[trigger] old(self).segments()[i]).len()
                    <= usize::MAX - 3,
        ensures
            final(self).wf(),
            final(self).segments() == old(self).segments(),
            old(self).position() == old(self).segments().len() ==> final(self).position()
                == old(self).position() && r.carry is None && (r.response matches Response::Finish(
                b,
            ) && b@ == control.outer()),
            old(self).position() < old(self).segments().len() ==> {
                let total = control.carried() + old(self).segments()[old(self).position() as int];
                &&& final(self).position() == old(self).position() + 1
                &&& match r.carry {
                    Some((n, rest)) => {
                        &&& n <= 3
                        &&& r.response matches Response::Advance(b) && b@.len()
                            >= control.outer().len() && b@.take(control.outer().len() as int)
                            == control.outer() && valid_utf8(b@.skip(control.outer().len() as int))
                            && b@.skip(control.outer().len() as int) + rest@.take(n as int) == total
                            && forall|m: int| b@.len() - control.outer().len() < m <= total.len()
                                ==> !valid_utf8(#[trigger] total.take(m))
                    },
                    None => {
                        &&& r.response matches Response::Cancel(b, e) && b@ == control.outer()
                            && e is InvalidSequence
                        &&& forall|m: int| total.len() - 3 <= m <= total.len() ==> !valid_utf8(
                            #[trigger] total.take(m),
                        )
                    },
                }
            },
    {
        if self.next_index >= self.segments.len() {
            return control.finish();
        }
        let seg = &self.segments[self.next_index];
        assert(self.segments()[self.next_index as int] == seg@);
        self.next_index = self.next_index + 1;
        let n = seg.len();
        let mut req = control.request_buffer(n);
        let ghost carried = control.carried();
        let mut i: usize = 0;
        while i < n
            invariant
                i <= n,
                n == seg@.len(),
                req.wf(),
                req.earlier() == control.outer(),
                req.carried() == carried,
                req.written().len() == n,
                forall|j: int| 0 <= j < i ==> req.written()[j] == seg@[j],
            decreases n - i,
        {
            req.set(i, seg[i]);
            i = i + 1;
        }
        assert(req.written().take(n as int) == seg@);
        req.advance(n)
    }
}

} // verus!
