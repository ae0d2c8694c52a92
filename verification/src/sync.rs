//! The snapshot buffer: double-buffered state with one writer and many
//! readers, published by an explicit commit.
//!
//! Two copies of the state exist: a published copy that readers borrow and
//! a staging copy the writer mutates.  Committing swaps the copies and then
//! brings the now-former published copy up to date through the state's
//! [`Synchronize`] hook, so the next write starts from current data.  This
//! sequential model carries the concurrent original's discipline in its
//! contracts: read borrows are counted and must be released, only one
//! write borrow exists at a time, and a commit waits until every reader of
//! the copy it is about to reuse has released — the spin waits of the
//! concurrent version appear here as preconditions.

use vstd::prelude::*;

verus! {

/// Brings a stale state copy up to date from the freshly published one.
pub trait Synchronize: Sized {
    /// What `synchronize` establishes between the copy and its source.
    spec fn synced_with(&self, source: &Self) -> bool;

    fn synchronize(&mut self, source: &Self)
        ensures
            final(self).synced_with(source),
    ;
}

/// The per-worker load counter uses the same publish/synchronize idiom;
/// synchronizing a plain counter copies it.
impl Synchronize for i64 {
    open spec fn synced_with(&self, source: &Self) -> bool {
        self == source
    }

    fn synchronize(&mut self, source: &Self) {
        *self = *source;
    }
}

/// A counted read borrow of the published copy.
pub struct DoubleStateBorrow;

/// The single write borrow of the staging copy.
pub struct DoubleStateBorrowMut;

/// Double-buffered shared state: a published copy, a staging copy, the
/// count of outstanding read borrows and the write-borrow flag.
pub struct DoubleState<T> {
    front: T,
    back: T,
    readers: u32,
    writing: bool,
}

impl<T: Synchronize> DoubleState<T> {
    /// The copy readers see.
    pub closed spec fn published(&self) -> T {
        self.front
    }

    /// The copy the writer mutates.
    pub closed spec fn staging(&self) -> T {
        self.back
    }

    /// Outstanding read borrows of the published copy.
    pub closed spec fn reader_count(&self) -> int {
        self.readers as int
    }

    /// Whether a write borrow is outstanding.
    pub closed spec fn writing(&self) -> bool {
        self.writing
    }

    pub fn new(published: T, staging: T) -> (r: Self)
        ensures
            r.published() == published,
            r.staging() == staging,
            r.reader_count() == 0,
            !r.writing(),
    {
        DoubleState { front: published, back: staging, readers: 0, writing: false }
    }

    /// The number of outstanding read borrows.
    pub fn readers(&self) -> (r: u32)
        ensures
            r == self.reader_count(),
    {
        self.readers
    }

    /// Whether the write borrow is out.
    pub fn is_writing(&self) -> (r: bool)
        ensures
            r == self.writing(),
    {
        self.writing
    }

    /// Takes a counted read borrow; readers never wait, not even while a
    /// writer holds the staging copy.
    pub fn borrow(&mut self) -> (g: DoubleStateBorrow)
        requires
            old(self).reader_count() < u32::MAX,
        ensures
            final(self).reader_count() == old(self).reader_count() + 1,
            final(self).published() == old(self).published(),
            final(self).staging() == old(self).staging(),
            final(self).writing() == old(self).writing(),
    {
        self.readers = self.readers + 1;
        DoubleStateBorrow {  }
    }

    /// Reads through an outstanding read borrow: always the published
    /// copy, never a half-written one.
    pub fn read(&self, guard: &DoubleStateBorrow) -> (r: &T)
        requires
            self.reader_count() >= 1,
        ensures
            *r == self.published(),
    {
        &self.front
    }

    /// Returns a read borrow.
    pub fn release(&mut self, guard: DoubleStateBorrow)
        requires
            old(self).reader_count() >= 1,
        ensures
            final(self).reader_count() == old(self).reader_count() - 1,
            final(self).published() == old(self).published(),
            final(self).staging() == old(self).staging(),
            final(self).writing() == old(self).writing(),
    {
        self.readers = self.readers - 1;
    }

    /// Takes the write borrow; the precondition is the concurrent
    /// version's spin on the writer flag.
    pub fn borrow_mut(&mut self) -> (g: DoubleStateBorrowMut)
        requires
            !old(self).writing(),
        ensures
            final(self).writing(),
            final(self).reader_count() == old(self).reader_count(),
            final(self).published() == old(self).published(),
            final(self).staging() == old(self).staging(),
    {
        self.writing = true;
        DoubleStateBorrowMut {  }
    }

    /// Replaces the staging copy through the write borrow; readers of the
    /// published copy are unaffected.
    pub fn write(&mut self, guard: &DoubleStateBorrowMut, value: T)
        requires
            old(self).writing(),
        ensures
            final(self).staging() == value,
            final(self).published() == old(self).published(),
            final(self).reader_count() == old(self).reader_count(),
            final(self).writing(),
    {
        self.back = value;
    }

    /// Reads the staging copy through the write borrow.
    pub fn staging_ref(&self, guard: &DoubleStateBorrowMut) -> (r: &T)
        requires
            self.writing(),
        ensures
            *r == self.staging(),
    {
        &self.back
    }

    /// Commits the staged state: the staging copy becomes the published
    /// one, and the previous published copy is synchronized from it so the
    /// next write starts current.  The reader precondition is the
    /// concurrent version's spin until stragglers on the reused copy have
    /// released; the synchronize call therefore always observes exactly
    /// the state the writer committed.
    pub fn commit(&mut self, guard: DoubleStateBorrowMut)
        requires
            old(self).writing(),
            old(self).reader_count() == 0,
        ensures
            final(self).published() == old(self).staging(),
            final(self).staging().synced_with(&old(self).staging()),
            final(self).reader_count() == 0,
            !final(self).writing(),
    {
        core::mem::swap(&mut self.front, &mut self.back);
        let source = &self.front;
        self.back.synchronize(source);
        self.writing = false;
    }
}

} // verus!
