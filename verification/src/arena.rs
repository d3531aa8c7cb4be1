//! The bump arena of one connection: bytes are copied into it once, and
//! every view of them borrows from it.

use vstd::prelude::*;
use vstd::slice::slice_subrange;
use bumpalo::Bump;
use crate::options::PeerAddr;
use crate::text::{as_text, utf8};

verus! {

/// A bump allocator; its allocations live as long as the borrow of it.
#[verifier::external_type_specification]
#[verifier::external_body]
pub struct ExBump<const MIN_ALIGN: usize>(bumpalo::Bump<MIN_ALIGN>);

/// `Bump::alloc_slice_copy`: a slice in the arena that holds a copy of
/// `data`.
#[verifier::external_body]
pub(crate) fn alloc_copy<'a>(arena: &'a Bump, data: &[u8]) -> (r: &'a [u8])
    ensures
        r@ == data@,
{
    arena.alloc_slice_copy(data)
}

/// Copies `data` into `arena`, once, and returns the view of the copy.
pub fn copy_into<'a>(arena: &'a Bump, data: &[u8]) -> (r: &'a [u8])
    ensures
        r@ == data@,
{
    alloc_copy(arena, data)
}

/// One received message in the arena of its connection: the raw bytes,
/// copied there once, and the offsets at which the header block ends and the
/// body starts. Every accessor is a view into that one copy.
pub struct ArenaBody<'a> {
    data: &'a [u8],
    header_end: usize,
    body_start: usize,
    ip: Option<PeerAddr>,
}

impl<'a> ArenaBody<'a> {
    #[verifier::type_invariant]
    spec fn well_formed(self) -> bool {
        self.header_end <= self.data@.len() && self.body_start <= self.data@.len()
    }

    /// All bytes of the message.
    pub closed spec fn raw(&self) -> Seq<u8> {
        self.data@
    }

    /// The offset at which the header block ends.
    pub closed spec fn header_end(&self) -> int {
        self.header_end as int
    }

    /// The offset at which the body starts.
    pub closed spec fn body_start(&self) -> int {
        self.body_start as int
    }

    /// The address of the peer, once tagged.
    pub closed spec fn peer(&self) -> Option<PeerAddr> {
        self.ip
    }

    /// The header block: the bytes before `header_end`.
    pub open spec fn headers(&self) -> Seq<u8> {
        self.raw().subrange(0, self.header_end())
    }

    /// The body: the bytes from `body_start` on.
    pub open spec fn body(&self) -> Seq<u8> {
        self.raw().subrange(self.body_start(), self.raw().len() as int)
    }

    /// Copies `allocated_data` into `arena`, once. An offset beyond the end
    /// of the data is taken as the end.
    pub fn new(arena: &'a Bump, allocated_data: &[u8], header_end: usize, body_start: usize) -> (r:
        ArenaBody<'a>)
        ensures
            r.raw() == allocated_data@,
            r.header_end() == if header_end <= allocated_data@.len() {
                header_end as int
            } else {
                allocated_data@.len() as int
            },
            r.body_start() == if body_start <= allocated_data@.len() {
                body_start as int
            } else {
                allocated_data@.len() as int
            },
            r.peer() is None,
    {
        let data = copy_into(arena, allocated_data);
        let len: usize = data.len();
        ArenaBody {
            data,
            header_end: if header_end <= len {
                header_end
            } else {
                len
            },
            body_start: if body_start <= len {
                body_start
            } else {
                len
            },
            ip: None,
        }
    }

    /// The header block.
    pub fn get_headers(&self) -> (r: &'a [u8])
        ensures
            r@ == self.headers(),
            0 <= self.header_end() <= self.raw().len(),
    {
        proof {
            use_type_invariant(self);
        }
        slice_subrange(self.data, 0, self.header_end)
    }

    /// The body.
    pub fn get_body_bytes(&self) -> (r: &'a [u8])
        ensures
            r@ == self.body(),
            0 <= self.body_start() <= self.raw().len(),
    {
        proof {
            use_type_invariant(self);
        }
        slice_subrange(self.data, self.body_start, self.data.len())
    }

    /// The body as text, or `None` where it is not well-formed UTF-8.
    pub fn get_body_str(&self) -> (r: Option<&'a str>)
        ensures
            r.is_some() <==> vstd::utf8::valid_utf8(self.body()),
            r matches Some(s) ==> utf8(s@) == self.body(),
    {
        as_text(self.get_body_bytes())
    }

    /// The length of the body.
    pub fn len(&self) -> (r: usize)
        ensures
            r == self.body().len(),
    {
        proof {
            use_type_invariant(self);
        }
        self.data.len() - self.body_start
    }

    /// Whether the body is empty.
    pub fn is_empty(&self) -> (r: bool)
        ensures
            r == (self.body().len() == 0),
    {
        self.len() == 0
    }

    /// All bytes of the message.
    pub fn get_raw_data(&self) -> (r: &'a [u8])
        ensures
            r@ == self.raw(),
    {
        self.data
    }

    /// The address of the peer, once tagged.
    pub fn ip(&self) -> (r: Option<PeerAddr>)
        ensures
            r == self.peer(),
    {
        self.ip
    }

    /// Tags the message with the address of the peer.
    pub fn set_ip(&mut self, ip: Option<PeerAddr>)
        ensures
            final(self).peer() == ip,
            final(self).raw() == old(self).raw(),
            final(self).header_end() == old(self).header_end(),
            final(self).body_start() == old(self).body_start(),
    {
        proof {
            use_type_invariant(&*self);
        }
        self.ip = ip;
    }
}

} // verus!
