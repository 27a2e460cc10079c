//! The page cache. Pages are fetched from the backing file on first use and
//! stay resident until the pager is dropped. The pager decides what must be
//! read and what must be written; the caller moves the bytes.
use vstd::prelude::*;
use crate::error::DbError;
use crate::layout::{PAGE_SIZE, TABLE_MAX_PAGES};

verus! {

/// A page image to be written to the backing file at `offset`.
pub struct PageWrite {
    pub offset: u64,
    pub bytes: Vec<u8>,
}

/// Caches whole pages of one backing file.
pub struct Pager {
    file_length: u64,
    num_pages: u64,
    pages: Vec<Option<Vec<u8>>>,
}

/// A zero-filled page.
fn zeroed_page() -> (r: Vec<u8>)
    ensures
        r@ == Seq::new(PAGE_SIZE as nat, |i: int| 0u8),
{
    let mut page: Vec<u8> = Vec::new();
    let mut i: usize = 0;
    while i < PAGE_SIZE
        invariant
            i <= PAGE_SIZE,
            page@ == Seq::new(i as nat, |k: int| 0u8),
        decreases PAGE_SIZE - i,
    {
        page.push(0);
        i += 1;
        assert(page@ =~= Seq::new(i as nat, |k: int| 0u8));
    }
    page
}

impl Pager {
    /// Number of whole pages in the backing file when it was opened.
    pub closed spec fn file_pages(&self) -> nat {
        self.file_length as nat / PAGE_SIZE as nat
    }

    /// One more than the highest page number known to exist.
    pub closed spec fn num_pages(&self) -> nat {
        self.num_pages as nat
    }

    /// The cached contents of page `n`, if it has been fetched.
    pub closed spec fn cached(&self, n: int) -> Option<Seq<u8>> {
        if 0 <= n < self.pages@.len() {
            match self.pages@[n] {
                Some(p) => Some(p@),
                None => None,
            }
        } else {
            None
        }
    }

    pub closed spec fn wf(&self) -> bool {
        &&& self.pages@.len() == TABLE_MAX_PAGES
        &&& self.file_pages() <= self.num_pages()
        &&& forall|n: int|
            0 <= n < TABLE_MAX_PAGES && #[trigger] self.pages@[n] is Some ==> {
                &&& self.pages@[n]->Some_0@.len() == PAGE_SIZE
                &&& n < self.num_pages()
            }
    }

    /// A fetched page is one page long, and below the page count.
    pub proof fn lemma_cached_page(&self, n: int)
        requires
            self.wf(),
            self.cached(n) is Some,
        ensures
            self.cached(n)->Some_0.len() == PAGE_SIZE,
            0 <= n < self.num_pages(),
            n < TABLE_MAX_PAGES,
    {
    }

    /// One more than the highest page number known to exist.
    pub fn page_count(&self) -> (r: u64)
        ensures
            r == self.num_pages(),
    {
        self.num_pages
    }

    /// A pager over a backing file of `file_length` bytes, with no page
    /// cached. Fails when the length is not a whole number of pages.
    pub fn new(file_length: u64) -> (r: Result<Pager, DbError>)
        ensures
            file_length % (PAGE_SIZE as u64) == 0 <==> r is Ok,
            r is Err ==> r matches Err(DbError::InvalidFileLength),
            r matches Ok(p) ==> {
                &&& p.wf()
                &&& p.file_pages() == file_length as nat / PAGE_SIZE as nat
                &&& p.num_pages() == p.file_pages()
                &&& forall|n: int| #[trigger] p.cached(n) == None::<Seq<u8>>
            },
    {
        if file_length % (PAGE_SIZE as u64) != 0 {
            return Err(DbError::InvalidFileLength);
        }
        let mut pages: Vec<Option<Vec<u8>>> = Vec::new();
        let mut i: usize = 0;
        while i < TABLE_MAX_PAGES
            invariant
                i <= TABLE_MAX_PAGES,
                pages@.len() == i,
                forall|n: int| 0 <= n < i ==> pages@[n] is None,
            decreases TABLE_MAX_PAGES - i,
        {
            pages.push(None);
            i += 1;
        }
        let p = Pager { file_length, num_pages: file_length / (PAGE_SIZE as u64), pages };
        assert forall|n: int| #[trigger] p.cached(n) == None::<Seq<u8>> by {
            if 0 <= n < p.pages@.len() {
                assert(p.pages@[n] is None);
            }
        }
        Ok(p)
    }

    /// Where in the backing file page `page_num` must be read from before
    /// `get_page` can serve it: a page within the file that is not cached yet.
    pub fn page_read_offset(&self, page_num: usize) -> (r: Option<u64>)
        requires
            self.wf(),
        ensures
            r == (if page_num < TABLE_MAX_PAGES && self.cached(page_num as int) is None
                && page_num < self.file_pages() {
                Some((page_num * PAGE_SIZE) as u64)
            } else {
                None
            }),
    {
        if page_num < TABLE_MAX_PAGES && self.pages[page_num].is_none() && (page_num as u64)
            < self.file_length / (PAGE_SIZE as u64) {
            Some(page_num as u64 * PAGE_SIZE as u64)
        } else {
            None
        }
    }

    /// Makes page `page_num` resident. A page already cached stays as it is.
    /// Otherwise a page within the file takes the bytes read from it
    /// (`stored`, which must be one whole page), and a page beyond the file
    /// starts zero-filled; the page count then covers the page.
    pub fn get_page(&mut self, page_num: usize, stored: Option<Vec<u8>>) -> (r: Result<
        (),
        DbError,
    >)
        requires
            old(self).wf(),
        ensures
            final(self).wf(),
            final(self).file_pages() == old(self).file_pages(),
            page_num >= TABLE_MAX_PAGES ==> r == Err::<(), DbError>(DbError::PageOutOfBounds),
            page_num < TABLE_MAX_PAGES && old(self).cached(page_num as int) is Some ==> r is Ok,
            page_num < TABLE_MAX_PAGES && old(self).cached(page_num as int) is None && page_num
                < old(self).file_pages() ==> (r is Ok <==> (stored matches Some(b) && b@.len()
                == PAGE_SIZE)),
            page_num < TABLE_MAX_PAGES && old(self).cached(page_num as int) is None && page_num
                >= old(self).file_pages() ==> r is Ok,
            r is Err ==> *final(self) == *old(self),
            r is Ok ==> {
                &&& final(self).cached(page_num as int) == Some(
                    if old(self).cached(page_num as int) is Some {
                        old(self).cached(page_num as int)->Some_0
                    } else if page_num < old(self).file_pages() {
                        stored->Some_0@
                    } else {
                        Seq::new(PAGE_SIZE as nat, |i: int| 0u8)
                    },
                )
                &&& forall|n: int| n != page_num ==> #[trigger] final(self).cached(n) == old(
                    self,
                ).cached(n)
                &&& final(self).num_pages() == if page_num >= old(self).num_pages() {
                    page_num + 1
                } else {
                    old(self).num_pages() as int
                }
            },
    {
        if page_num >= TABLE_MAX_PAGES {
            return Err(DbError::PageOutOfBounds);
        }
        if self.pages[page_num].is_some() {
            return Ok(());
        }
        let page = if (page_num as u64) < self.file_length / (PAGE_SIZE as u64) {
            match stored {
                Some(b) => {
                    if b.len() != PAGE_SIZE {
                        return Err(DbError::IncompletePage);
                    }
                    b
                },
                None => {
                    return Err(DbError::IncompletePage);
                },
            }
        } else {
            zeroed_page()
        };
        self.pages.set(page_num, Some(page));
        if page_num as u64 >= self.num_pages {
            self.num_pages = page_num as u64 + 1;
        }
        Ok(())
    }

    /// The cached page `page_num`.
    pub fn page(&self, page_num: usize) -> (r: &Vec<u8>)
        requires
            self.wf(),
            self.cached(page_num as int) is Some,
        ensures
            r@ == self.cached(page_num as int)->Some_0,
            r@.len() == PAGE_SIZE,
    {
        self.pages[page_num].as_ref().unwrap()
    }

    /// The cached page `page_num`, for writing. Its length stays one page.
    pub fn page_mut(&mut self, page_num: usize) -> (r: &mut Vec<u8>)
        requires
            old(self).wf(),
            old(self).cached(page_num as int) is Some,
        ensures
            r@ == old(self).cached(page_num as int)->Some_0,
            r@.len() == PAGE_SIZE,
            final(r)@.len() == PAGE_SIZE ==> {
                &&& final(self).wf()
                &&& final(self).file_pages() == old(self).file_pages()
                &&& final(self).num_pages() == old(self).num_pages()
                &&& final(self).cached(page_num as int) == Some(final(r)@)
                &&& forall|n: int| n != page_num ==> #[trigger] final(self).cached(n) == old(
                    self,
                ).cached(n)
            },
    {
        self.pages[page_num].as_mut().unwrap()
    }

    /// What must be written to save page `page_num`: the whole page at its
    /// offset, or nothing when the page was never fetched. The cache is left
    /// as it is.
    pub fn flush(&self, page_num: usize) -> (r: Option<PageWrite>)
        requires
            self.wf(),
        ensures
            self.cached(page_num as int) is None ==> r is None,
            self.cached(page_num as int) is Some ==> (r matches Some(w) && w.offset == page_num
                * PAGE_SIZE && w.bytes@ == self.cached(page_num as int)->Some_0),
    {
        if page_num >= TABLE_MAX_PAGES {
            return None;
        }
        match &self.pages[page_num] {
            Some(page) => {
                let offset = page_num as u64 * PAGE_SIZE as u64;
                let mut bytes: Vec<u8> = Vec::new();
                let mut i: usize = 0;
                while i < PAGE_SIZE
                    invariant
                        i <= PAGE_SIZE,
                        page@.len() == PAGE_SIZE,
                        bytes@ == page@.subrange(0, i as int),
                    decreases PAGE_SIZE - i,
                {
                    bytes.push(page[i]);
                    i += 1;
                    assert(bytes@ =~= page@.subrange(0, i as int));
                }
                assert(bytes@ =~= page@);
                Some(PageWrite { offset, bytes })
            },
            None => None,
        }
    }
}

} // verus!
