//! A body shared between the code that fills it and the code that reads it:
//! every clone of a handle refers to the same body, so a length announced,
//! bytes appended or a chunk pushed through one handle is seen through all
//! of them, as a stream reads a body while it is still arriving.
use vstd::prelude::*;
use vstd::rwlock::{RwLock, RwLockPredicate};

use std::sync::Arc;

use crate::body::{
    chunk_step, content_step, Body, BodyError, BodyModel, ChunkStream, ContentStream, Next,
};

verus! {

/// What every value of a shared body satisfies: it keeps the kind (chunked
/// or not) that it was shared with.
pub struct BodyKind {
    pub chunked: bool,
}

impl RwLockPredicate<Body> for BodyKind {
    open spec fn inv(self, b: Body) -> bool {
        b.is_chunked() == self.chunked
    }
}

/// Wraps `Arc::clone`: another pointer to the same allocation, which Verus
/// sees as the same value.
#[verifier::external_body]
fn share<T>(a: &Arc<T>) -> (r: Arc<T>)
    ensures
        r == *a,
{
    Arc::clone(a)
}

/// A handle on a shared body.
pub struct SharedBody {
    cell: Arc<RwLock<Body, BodyKind>>,
}

impl SharedBody {
    /// Whether the shared body is chunked; it stays so.
    pub closed spec fn is_chunked(&self) -> bool {
        (*self.cell).pred().chunked
    }

    /// Shares a body.
    pub fn new(body: Body) -> (s: SharedBody)
        ensures
            s.is_chunked() == body.is_chunked(),
    {
        let kind = Ghost(BodyKind { chunked: body.is_chunked() });
        SharedBody { cell: Arc::new(RwLock::new(body, kind)) }
    }

    /// Whether the shared body is chunked.
    pub fn chunked(&self) -> (r: bool)
        ensures
            r == self.is_chunked(),
    {
        let h = self.cell.acquire_read();
        let r = h.borrow().chunked();
        h.release_read();
        r
    }

    /// Announces the payload length of a body that is not chunked.
    pub fn set_content_length(&self, length: usize)
        requires
            !self.is_chunked(),
    {
        let (mut b, h) = self.cell.acquire_write();
        b.set_content_length(length);
        h.release_write(b);
    }

    /// Appends bytes to a body that is not chunked, keeping at most the
    /// announced length; the answer says whether the body then has exactly
    /// that length.
    pub fn append(&self, buf: &[u8]) -> (r: Result<bool, BodyError>)
        requires
            !self.is_chunked(),
        ensures
            r is Ok,
    {
        let (mut b, h) = self.cell.acquire_write();
        let r = b.append(buf);
        h.release_write(b);
        r
    }

    /// Adds a chunk to a chunked body, after the chunks already pushed.
    pub fn push_chunk(&self, chunk: Vec<u8>)
        requires
            self.is_chunked(),
    {
        let (mut b, h) = self.cell.acquire_write();
        b.push_chunk(chunk);
        h.release_write(b);
    }

    /// Marks the last chunk as received; false, changing nothing, when it
    /// already was.
    pub fn end_chunked(&self) -> (r: bool)
        requires
            self.is_chunked(),
    {
        let (mut b, h) = self.cell.acquire_write();
        let r = if b.complete() {
            false
        } else {
            b.end_chunked();
            true
        };
        h.release_write(b);
        r
    }

    /// A copy of the body as it stands now.
    pub fn snapshot(&self) -> (b: Body)
        ensures
            b.is_chunked() == self.is_chunked(),
    {
        let h = self.cell.acquire_read();
        let b = h.borrow().clone();
        h.release_read();
        b
    }

    /// Everything received so far.
    pub fn try_content(&self) -> (r: Vec<u8>)
        ensures
            exists|b: Body| b.is_chunked() == self.is_chunked() && r@ == b.received(),
    {
        let h = self.cell.acquire_read();
        let r = h.borrow().try_content();
        proof {
            let b = h.view();
            assert(b.is_chunked() == self.is_chunked() && r@ == b.received());
        }
        h.release_read();
        r
    }

    /// Whether the whole body has been received.
    pub fn complete(&self) -> (r: bool)
        ensures
            exists|b: Body|
                b.is_chunked() == self.is_chunked() && r == match b@ {
                    BodyModel::Chunked { complete, .. } => complete,
                    BodyModel::Full { content, expected } => content.len() >= expected,
                },
    {
        let h = self.cell.acquire_read();
        let r = h.borrow().complete();
        proof {
            let b = h.view();
            assert(b.is_chunked() == self.is_chunked() && r == match b@ {
                BodyModel::Chunked { complete, .. } => complete,
                BodyModel::Full { content, expected } => content.len() >= expected,
            });
        }
        h.release_read();
        r
    }

    /// Reads the next item of a content stream from the body as it stands
    /// now: one step of `content_step` on the body's current state.
    pub fn next_content(&self, s: &mut ContentStream) -> (r: Next)
        requires
            !self.is_chunked(),
        ensures
            exists|b: BodyModel| b is Full && content_step(*old(s), *final(s), b, r),
    {
        let h = self.cell.acquire_read();
        let r = s.next(h.borrow());
        proof {
            let b = h.view();
            assert(b@ is Full && content_step(*old(s), *s, b@, r));
        }
        h.release_read();
        r
    }

    /// Reads the next item of a chunk stream from the body as it stands now:
    /// one step of `chunk_step` on the body's current state.
    pub fn next_chunk(&self, s: &mut ChunkStream) -> (r: Next)
        requires
            self.is_chunked(),
        ensures
            exists|b: BodyModel| b is Chunked && chunk_step(*old(s), *final(s), b, r),
    {
        let h = self.cell.acquire_read();
        let r = s.next(h.borrow());
        proof {
            let b = h.view();
            assert(b@ is Chunked && chunk_step(*old(s), *s, b@, r));
        }
        h.release_read();
        r
    }
}

impl Clone for SharedBody {
    /// Another handle on the same body.
    fn clone(&self) -> (r: Self)
        ensures
            r == *self,
    {
        SharedBody { cell: share(&self.cell) }
    }
}

} // verus!
