//! What a scripted compositor reads: the requests the app sent, decoded
//! to their headers, with bodies to read with a [`Reader`], kept in the
//! order they came until a test takes them.
use vstd::prelude::*;

use crate::wayland::wire::{copy_bytes, framed, frames_view, lemma_walk_frames_in_bounds, split_messages, walk_messages, Reader};
use crate::wayland::ObjectId;

verus! {

/// One request the app sent, decoded to its header; the body is read
/// with [`Request::reader`].
#[derive(Debug)]
pub struct Request {
    pub sender: ObjectId,
    pub opcode: u16,
    pub body: Vec<u8>,
}

impl Request {
    pub fn reader(&self) -> (r: Reader<'_>)
        ensures
            r.data() == self.body@,
            r.offset() == 0,
    {
        Reader::new(self.body.as_slice())
    }
}

/// Every whole request at the start of `bytes`, in order, and how many
/// bytes they take; the rest is a request still arriving. `None` if a
/// header claims a size shorter than itself.
pub fn read_requests(bytes: &[u8]) -> (r: Option<(Vec<Request>, usize)>)
    ensures
        match r {
            Some((requests, consumed)) => walk_messages(bytes@, 0) matches Some((frames, end)) && {
                &&& end == consumed
                &&& requests@.len() == frames.len()
                &&& forall|i: int|
                    0 <= i < frames.len() ==> {
                        let (h, at) = #[trigger] frames[i];
                        &&& requests@[i].sender == h.sender
                        &&& requests@[i].opcode == h.opcode
                        &&& requests@[i].body@ == bytes@.subrange(at + 8int, at + h.size)
                    }
            },
            None => walk_messages(bytes@, 0) is None,
        },
{
    let (frames, consumed) = match split_messages(bytes) {
        Some(x) => x,
        None => return None,
    };
    let ghost walked = frames_view(frames@);
    proof {
        lemma_walk_frames_in_bounds(bytes@, 0);
    }
    let n: usize = bytes.len();
    let mut requests: Vec<Request> = Vec::new();
    let mut i: usize = 0;
    while i < frames.len()
        invariant
            i <= frames@.len(),
            n == bytes@.len(),
            requests@.len() == i,
            walk_messages(bytes@, 0) == Some((walked, consumed as nat)),
            walked == frames_view(frames@),
            forall|k: int|
                0 <= k < walked.len() ==> {
                    let (h, at) = #[trigger] walked[k];
                    &&& 8 <= h.size
                    &&& at + h.size <= bytes@.len()
                },
            forall|k: int|
                0 <= k < i ==> {
                    let (h, at) = #[trigger] walked[k];
                    &&& requests@[k].sender == h.sender
                    &&& requests@[k].opcode == h.opcode
                    &&& requests@[k].body@ == bytes@.subrange(at + 8int, at + h.size)
                },
        decreases frames@.len() - i,
    {
        let (h, at) = frames[i];
        assert(walked[i as int] == (h, at as nat));
        assert(8 <= h.size && at + h.size <= bytes@.len());
        let body = copy_bytes(vstd::slice::slice_subrange(bytes, at + 8, at + h.size));
        requests.push(Request { sender: h.sender, opcode: h.opcode, body });
        i = i + 1;
    }
    Some((requests, consumed))
}

/// A request as values: sender, opcode and body.
pub open spec fn request_view(r: Request) -> (ObjectId, u16, Seq<u8>) {
    (r.sender, r.opcode, r.body@)
}

/// The first request of `list` from `sender` with `opcode`, by index.
pub open spec fn first_request(list: Seq<(ObjectId, u16, Seq<u8>)>, sender: u32, opcode: u16) -> Option<
    int,
> {
    if exists|i: int|
        0 <= i < list.len() && (#[trigger] list[i]).0 == ObjectId(sender) && list[i].1 == opcode {
        Some(
            choose|i: int|
                0 <= i < list.len() && (#[trigger] list[i]).0 == ObjectId(sender) && list[i].1
                    == opcode && forall|k: int|
                    0 <= k < i ==> !((#[trigger] list[k]).0 == ObjectId(sender) && list[k].1
                        == opcode),
        )
    } else {
        None
    }
}

/// What the fake has read from the app: the requests, in order, and the
/// start of one still arriving.
pub struct Inbox {
    partial: Vec<u8>,
    requests: Vec<Request>,
}

impl Inbox {
    /// The requests read and not yet taken, in order.
    pub closed spec fn list(self) -> Seq<(ObjectId, u16, Seq<u8>)> {
        self.requests@.map_values(|r: Request| request_view(r))
    }

    /// The bytes of a request not yet whole.
    pub closed spec fn partial(self) -> Seq<u8> {
        self.partial@
    }

    pub fn new() -> (i: Inbox)
        ensures
            i.list() == Seq::<(ObjectId, u16, Seq<u8>)>::empty(),
            i.partial() == Seq::<u8>::empty(),
    {
        let i = Inbox { partial: Vec::new(), requests: Vec::new() };
        assert(i.list() =~= Seq::<(ObjectId, u16, Seq<u8>)>::empty());
        i
    }

    /// Bytes read from the app: every request they complete joins the
    /// list, in order; the start of one still arriving is kept. Every
    /// header met must claim at least its own eight bytes:
    /// [`read_requests`] says whether one does not.
    pub fn read(&mut self, bytes: &[u8])
        requires
            framed(old(self).partial() + bytes@),
        ensures
            ({
                let all = old(self).partial() + bytes@;
                walk_messages(all, 0) matches Some((frames, end)) && {
                    &&& final(self).partial() == all.skip(end as int)
                    &&& final(self).list().len() == old(self).list().len() + frames.len()
                    &&& final(self).list().take(old(self).list().len() as int) == old(self).list()
                    &&& forall|i: int|
                        0 <= i < frames.len() ==> {
                            let (h, at) = #[trigger] frames[i];
                            final(self).list()[old(self).list().len() + i] == (
                                h.sender,
                                h.opcode,
                                all.subrange(at + 8int, at + h.size),
                            )
                        }
                }
            }),
    {
        let mut all: Vec<u8> = Vec::new();
        std::mem::swap(&mut all, &mut self.partial);
        let mut more = copy_bytes(bytes);
        all.append(&mut more);
        assert(all@ =~= old(self).partial() + bytes@);
        match read_requests(all.as_slice()) {
            None => {
                proof {
                    assert(false);
                }
            },
            Some((mut got, consumed)) => {
                proof {
                    lemma_walk_frames_in_bounds(all@, 0);
                }
                let ghost before = self.list();
                let ghost fresh = got@;
                self.partial = copy_bytes(vstd::slice::slice_subrange(all.as_slice(), consumed, all.len()));
                self.requests.append(&mut got);
                proof {
                    assert(self.partial@ =~= all@.skip(consumed as int));
                    assert(self.list() =~= before + fresh.map_values(|r: Request| request_view(r)));
                    assert(self.list().take(before.len() as int) =~= before);
                }
            },
        }
    }

    /// Every request read so far, in order, drained.
    pub fn take_requests(&mut self) -> (r: Vec<Request>)
        ensures
            r@.map_values(|q: Request| request_view(q)) == old(self).list(),
            final(self).list() == Seq::<(ObjectId, u16, Seq<u8>)>::empty(),
            final(self).partial() == old(self).partial(),
    {
        let mut r: Vec<Request> = Vec::new();
        std::mem::swap(&mut r, &mut self.requests);
        assert(self.list() =~= Seq::<(ObjectId, u16, Seq<u8>)>::empty());
        r
    }

    /// The first request from `sender` with `opcode`, removed from the
    /// list; `None` if there is none.
    pub fn expect(&mut self, sender: u32, opcode: u16) -> (r: Option<Request>)
        ensures
            final(self).partial() == old(self).partial(),
            match first_request(old(self).list(), sender, opcode) {
                Some(i) => r matches Some(q) && request_view(q) == old(self).list()[i]
                    && final(self).list() == old(self).list().remove(i),
                None => r is None && final(self).list() == old(self).list(),
            },
    {
        let ghost l = self.list();
        let mut i: usize = 0;
        while i < self.requests.len()
            invariant
                i <= self.requests@.len(),
                l == self.list(),
                l == old(self).list(),
                self.partial@ == old(self).partial@,
                forall|k: int|
                    0 <= k < i ==> !((#[trigger] l[k]).0 == ObjectId(sender) && l[k].1 == opcode),
            decreases self.requests@.len() - i,
        {
            if self.requests[i].sender == ObjectId(sender) && self.requests[i].opcode == opcode {
                proof {
                    assert(l[i as int].0 == ObjectId(sender) && l[i as int].1 == opcode);
                    let j = choose|j: int|
                        0 <= j < l.len() && (#[trigger] l[j]).0 == ObjectId(sender) && l[j].1
                            == opcode && forall|k: int|
                            0 <= k < j ==> !((#[trigger] l[k]).0 == ObjectId(sender) && l[k].1
                                == opcode);
                    assert(0 <= j < l.len() && l[j].0 == ObjectId(sender) && l[j].1 == opcode);
                    if j < i {
                        assert(!(l[j].0 == ObjectId(sender) && l[j].1 == opcode));
                    }
                    if j > i {
                        assert(!(l[i as int].0 == ObjectId(sender) && l[i as int].1 == opcode));
                    }
                }
                let q = self.requests.remove(i);
                assert(self.list() =~= l.remove(i as int));
                return Some(q);
            }
            i = i + 1;
        }
        None
    }
}

} // verus!
