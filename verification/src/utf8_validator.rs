use crate::iterator_source::IteratorSource;
use crate::stream_control::{Request, Response, VecControl};
use vstd::prelude::*;
use vstd::utf8::valid_utf8;

verus! {

broadcast use vstd::seq_lib::group_seq_properties;

/// The length of the longest prefix of `bytes` that is valid UTF-8.
///
/// Calls `std::str::from_utf8`; on an error, its `valid_up_to`. std documents
/// `valid_up_to` as the largest index up to which the input is valid UTF-8,
/// and `from_utf8` as succeeding exactly on valid UTF-8; the contract states
/// that maximality with vstd's `valid_utf8`.
#[verifier::external_body]
pub(crate) fn utf8_valid_up_to(bytes: &[u8]) -> (n: usize)
    ensures
        n <= bytes@.len(),
        valid_utf8(bytes@.take(n as int)),
        forall|m: int| n < m <= bytes@.len() ==> !valid_utf8(#[trigger] bytes@.take(m)),
{
    match std::str::from_utf8(bytes) {
        Ok(_) => bytes.len(),
        Err(e) => e.valid_up_to(),
    }
}

pub enum Utf8ValidationError<E> {
    InvalidSequence,
    Inner(E),
}

/// Passes on only bytes that form valid UTF-8: an incomplete character at the
/// end of a load is held back (at most three bytes) and put in front of the
/// next load.
pub struct Utf8Validator<S> {
    buffered: usize,
    rest: [u8; 3],
    source: S,
}

/// The control handed to the inner source.
pub struct Utf8Control<E> {
    buffered: usize,
    rest: [u8; 3],
    control: VecControl<u8, Utf8ValidationError<E>>,
}

/// The region the inner source writes into, behind the held-back bytes.
pub struct Utf8Request<E> {
    buffered: usize,
    req: Request<u8, Utf8ValidationError<E>>,
}

/// What a load did, with the bytes to hold back for the next load.
pub struct Utf8Response<E> {
    pub carry: Option<(usize, [u8; 3])>,
    pub response: Response<Vec<u8>, Utf8ValidationError<E>>,
}

impl<S> Utf8Validator<S> {
    /// The bytes held back from the previous load.
    pub closed spec fn carried(&self) -> Seq<u8> {
        self.rest@.take(self.buffered as int)
    }

    pub closed spec fn source(&self) -> S {
        self.source
    }

    pub closed spec fn wf(&self) -> bool {
        self.buffered <= 3
    }

    pub fn new(source: S) -> (r: Self)
        ensures
            r.wf(),
            r.carried() == Seq::<u8>::empty(),
            r.source() == source,
    {
        Self { buffered: 0, rest: [0u8; 3], source }
    }

    pub fn source_mut(&mut self) -> (r: &mut S)
        ensures
            *r == old(self).source(),
            final(self).source() == *final(r),
            final(self).carried() == old(self).carried(),
            final(self).wf() == old(self).wf(),
    {
        &mut self.source
    }

    /// The control for one load of the inner source over the outer control.
    pub fn control<E>(&self, control: VecControl<u8, Utf8ValidationError<E>>) -> (r: Utf8Control<E>)
        requires
            self.wf(),
        ensures
            r.wf(),
            r.carried() == self.carried(),
            r.outer() == control.contents(),
    {
        Utf8Control { buffered: self.buffered, rest: self.rest, control }
    }

    /// Completes a load: the held-back bytes become those the load left over.
    pub fn complete<E>(&mut self, response: Utf8Response<E>) -> (r: Response<
        Vec<u8>,
        Utf8ValidationError<E>,
    >)
        requires
            old(self).wf(),
            response.carry matches Some((n, _)) ==> n <= 3,
        ensures
            final(self).wf(),
            final(self).source() == old(self).source(),
            r == response.response,
            match response.carry {
                Some((n, rest)) => final(self).carried() == rest@.take(n as int),
                None => final(self).carried() == old(self).carried(),
            },
    {
        match response.carry {
            Some((buffered, rest)) => {
                self.buffered = buffered;
                self.rest = rest;
            },
            None => {},
        }
        response.response
    }
}

impl<E> Utf8Control<E> {
    pub closed spec fn carried(&self) -> Seq<u8> {
        self.rest@.take(self.buffered as int)
    }

    pub closed spec fn outer(&self) -> Seq<u8> {
        self.control.contents()
    }

    pub closed spec fn wf(&self) -> bool {
        self.buffered <= 3
    }

    /// A region of `min_size` bytes behind the held-back bytes, which are
    /// copied in front of it.
    pub fn request_buffer(self, min_size: usize) -> (r: Utf8Request<E>)
        requires
            self.wf(),
            min_size <= usize::MAX - 3,
        ensures
            r.wf(),
            r.earlier() == self.outer(),
            r.carried() == self.carried(),
            r.written().len() == min_size,
    {
        let mut req = self.control.request_buffer(self.buffered + min_size);
        let mut i: usize = 0;
        while i < self.buffered
            invariant
                i <= self.buffered <= 3,
                req.wf(),
                req.earlier() == self.control.contents(),
                req.written().len() == self.buffered + min_size,
                req.written().take(i as int) == self.rest@.take(i as int),
            decreases self.buffered - i,
        {
            req.set(i, self.rest[i]);
            i = i + 1;
        }
        Utf8Request { buffered: self.buffered, req }
    }

    pub fn cancel(self, err: E) -> (r: Utf8Response<E>)
        ensures
            r.carry is None,
            r.response matches Response::Cancel(b, e) && b@ == self.outer() && e == Utf8ValidationError::<E>::Inner(err),
    {
        Utf8Response { carry: None, response: self.control.cancel(Utf8ValidationError::Inner(err)) }
    }

    pub fn finish(self) -> (r: Utf8Response<E>)
        ensures
            r.carry is None,
            r.response matches Response::Finish(b) && b@ == self.outer(),
    {
        Utf8Response { carry: None, response: self.control.finish() }
    }
}

impl<E> Utf8Request<E> {
    pub closed spec fn earlier(&self) -> Seq<u8> {
        self.req.earlier()
    }

    pub closed spec fn carried(&self) -> Seq<u8> {
        self.req.written().take(self.buffered as int)
    }

    pub closed spec fn written(&self) -> Seq<u8> {
        self.req.written().skip(self.buffered as int)
    }

    pub closed spec fn wf(&self) -> bool {
        &&& self.req.wf()
        &&& self.buffered <= 3
        &&& self.buffered <= self.req.written().len()
    }

    /// Writes `byte` at index `i` of the region.
    pub fn set(&mut self, i: usize, byte: u8)
        requires
            old(self).wf(),
            i < old(self).written().len(),
        ensures
            final(self).wf(),
            final(self).written() == old(self).written().update(i as int, byte),
            final(self).carried() == old(self).carried(),
            final(self).earlier() == old(self).earlier(),
    {
        proof {
            self.req.lemma_bounds();
        }
        self.req.set(self.buffered + i, byte);
    }

    /// Hands on the longest valid UTF-8 prefix of the held-back bytes and the
    /// first `written` bytes of the region, holding back the rest; if more
    /// than three bytes would be left over, the sequence is invalid and the
    /// load is cancelled.
    pub fn advance(self, written: usize) -> (r: Utf8Response<E>)
        requires
            self.wf(),
            written <= self.written().len(),
        ensures
            ({
                let total = self.carried() + self.written().take(written as int);
                match r.carry {
                    Some((n, rest)) => {
                        &&& n <= 3
                        &&& r.response matches Response::Advance(b) && b@.len() >= self.earlier().len()
                            && b@.take(self.earlier().len() as int) == self.earlier()
                            && valid_utf8(b@.skip(self.earlier().len() as int))
                            && b@.skip(self.earlier().len() as int) + rest@.take(n as int) == total
                            && forall|m: int| b@.len() - self.earlier().len() < m <= total.len()
                                ==> !valid_utf8(#[trigger] total.take(m))
                    },
                    None => {
                        &&& r.response matches Response::Cancel(b, e) && b@ == self.earlier()
                            && e is InvalidSequence
                        &&& forall|m: int| total.len() - 3 <= m <= total.len() ==> !valid_utf8(
                            #[trigger] total.take(m),
                        )
                    },
                }
            }),
    {
        proof {
            self.req.lemma_bounds();
        }
        let total = self.buffered + written;
        let mut req = self.req;
        let ghost before = req.written();
        let ghost region = req.written().take(total as int);
        let valid_len = utf8_valid_up_to(vstd::slice::slice_subrange(req.region(), 0, total));
        let invalids = total - valid_len;
        if invalids > 3 {
            proof {
                assert(self.carried() + self.written().take(written as int) == region);
            }
            let response = req.cancel(Utf8ValidationError::InvalidSequence);
            Utf8Response { carry: None, response }
        } else {
            let mut rest = [0u8; 3];
            let mut i: usize = 0;
            while i < invalids
                invariant
                    i <= invalids <= 3,
                    valid_len + invalids == total,
                    total <= req.written().len(),
                    req.written() == before,
                    req.wf(),
                    rest@.len() == 3,
                    rest@.take(i as int) == before.subrange(valid_len as int, valid_len + i),
                decreases invalids - i,
            {
                let b = req.region()[valid_len + i];
                rest[i] = b;
                i = i + 1;
            }
            let response = req.advance(valid_len);
            proof {
                assert(self.carried() + self.written().take(written as int) == region);
                assert(before.take(valid_len as int) + rest@.take(invalids as int) == region);
            }
            Utf8Response { carry: Some((invalids, rest)), response }
        }
    }

    pub fn cancel(self, err: E) -> (r: Utf8Response<E>)
        requires
            self.wf(),
        ensures
            r.carry is None,
            r.response matches Response::Cancel(b, e) && b@ == self.earlier() && e == Utf8ValidationError::<E>::Inner(err),
    {
        Utf8Response { carry: None, response: self.req.cancel(Utf8ValidationError::Inner(err)) }
    }
}

impl Utf8Validator<IteratorSource<u8>> {
    /// One load from the inner source through a validating control: the
    /// bytes that form whole characters are appended to the control's
    /// contents, an incomplete character at the end is held back for the next
    /// load.
    pub fn next<E>(&mut self, control: VecControl<u8, Utf8ValidationError<E>>, size_hint: usize) -> (r:
        Response<Vec<u8>, Utf8ValidationError<E>>)
        requires
            old(self).wf(),
            old(self).source().wf(),
            forall|i: int|
                0 <= i < old(self).source().segments().len() ==> (
                #[trigger] old(self).source().segments()[i]).len() <= usize::MAX - 3,
        ensures
            final(self).wf(),
            final(self).source().wf(),
            final(self).source().segments() == old(self).source().segments(),
            old(self).source().position() == old(self).source().segments().len() ==> {
                &&& final(self).source().position() == old(self).source().position()
                &&& final(self).carried() == old(self).carried()
                &&& r matches Response::Finish(b) && b@ == control.contents()
            },
            old(self).source().position() < old(self).source().segments().len() ==> {
                let total = old(self).carried() + old(self).source().segments()[old(
                    self,
                ).source().position() as int];
                let base = control.contents();
                &&& final(self).source().position() == old(self).source().position() + 1
                &&& match r {
                    Response::Advance(b) => {
                        &&& b@.len() >= base.len()
                        &&& b@.take(base.len() as int) == base
                        &&& valid_utf8(b@.skip(base.len() as int))
                        &&& b@.skip(base.len() as int) + final(self).carried() == total
                        &&& final(self).carried().len() <= 3
                        &&& forall|m: int| b@.len() - base.len() < m <= total.len()
                            ==> !valid_utf8(#[trigger] total.take(m))
                    },
                    Response::Cancel(b, e) => {
                        &&& b@ == base
                        &&& e is InvalidSequence
                        &&& final(self).carried() == old(self).carried()
                        &&& forall|m: int| total.len() - 3 <= m <= total.len() ==> !valid_utf8(
                            #[trigger] total.take(m),
                        )
                    },
                    Response::Finish(_) => false,
                }
            },
    {
        let c = self.control(control);
        let response = self.source.next_utf8(c);
        self.complete(response)
    }
}

/// Over consecutive loads the validator keeps as invariant that what it has
/// passed on is valid UTF-8 and, followed by the bytes it holds back, is
/// exactly what it has read: a load that passes on `new_part` and holds back
/// `new_carried` out of the held-back bytes and a segment `seg` (as `next`
/// states) keeps it.
pub proof fn law_validator_keeps_output_valid(
    out: Seq<u8>,
    carried: Seq<u8>,
    read: Seq<u8>,
    seg: Seq<u8>,
    new_part: Seq<u8>,
    new_carried: Seq<u8>,
)
    requires
        valid_utf8(out),
        out + carried == read,
        valid_utf8(new_part),
        new_part + new_carried == carried + seg,
    ensures
        valid_utf8(out + new_part),
        (out + new_part) + new_carried == read + seg,
{
    vstd::utf8::valid_utf8_concat(out, new_part);
    assert((out + new_part) + new_carried == out + (new_part + new_carried));
    assert(read + seg == out + (carried + seg));
}

} // verus!
