//! Linear navigation history: an ordered list of rendered pages with a
//! movable head, with browser-like back/forward semantics. The history is
//! never empty; a push discards every page after the head, so no forward
//! branch survives a new navigation.

use vstd::prelude::*;

use crate::page::Page;

verus! {

/// The pages visited so far and the index of the one on display.
pub struct History {
    pages: Vec<Page>,
    head: usize,
}

impl History {
    /// The ordered sequence of pages held.
    pub closed spec fn pages(self) -> Seq<Page> {
        self.pages@
    }

    /// The index of the page on display.
    pub closed spec fn head(self) -> int {
        self.head as int
    }

    /// The head always addresses a held page; the history is never empty.
    pub open spec fn wf(self) -> bool {
        0 <= self.head() < self.pages().len()
    }

    /// A history holding one empty page.
    pub fn new() -> (h: History)
        ensures
            h.wf(),
            h.pages().len() == 1,
            h.head() == 0,
            h.pages()[0].wf(),
            h.pages()[0].buf@ == Seq::<char>::empty(),
            h.pages()[0].url@ == Seq::<char>::empty(),
            h.pages()[0].anchors@.len() == 0,
    {
        let mut pages: Vec<Page> = Vec::new();
        pages.push(Page::new());
        History { pages, head: 0 }
    }

    /// The page at the head.
    pub fn current(&self) -> (p: &Page)
        requires
            self.wf(),
        ensures
            *p == self.pages()[self.head()],
    {
        &self.pages[self.head]
    }

    /// Inserts `page` immediately after the head, discards every page that
    /// was after the head, and moves the head onto the new page.
    pub fn push(&mut self, page: Page)
        requires
            old(self).wf(),
        ensures
            final(self).wf(),
            final(self).head() == old(self).head() + 1,
            final(self).pages() == old(self).pages().take(old(self).head() + 1).push(page),
            final(self).pages()[final(self).head()] == page,
            final(self).head() == final(self).pages().len() - 1,
    {
        let n = self.pages.len();
        assert(self.head < n);
        self.head += 1;
        self.pages.truncate(self.head);
        self.pages.push(page);
        assert(final(self).pages() =~= old(self).pages().take(old(self).head() + 1).push(page));
    }

    /// Moves the head one page back, stopping at the first page.
    pub fn prev(&mut self)
        requires
            old(self).wf(),
        ensures
            final(self).wf(),
            final(self).pages() == old(self).pages(),
            final(self).head() == if old(self).head() > 0 {
                old(self).head() - 1
            } else {
                0int
            },
    {
        if self.head > 0 {
            self.head -= 1;
        }
    }

    /// Moves the head one page forward, stopping at the last page.
    pub fn next(&mut self)
        requires
            old(self).wf(),
        ensures
            final(self).wf(),
            final(self).pages() == old(self).pages(),
            final(self).head() == if old(self).head() + 1 < old(self).pages().len() {
                old(self).head() + 1
            } else {
                old(self).pages().len() - 1
            },
    {
        if self.head < self.pages.len() - 1 {
            self.head += 1;
        }
    }
}

/// After a push the pushed page is current, and the head stands on the last
/// page, so a forward step is a no-op: no forward page exists. The starting
/// state may be any well-formed history, in particular one reached by any
/// sequence of backward and forward steps, which move the head but keep it
/// within the held pages.
pub proof fn lemma_push_then_current_and_next(pages: Seq<Page>, head: int, p: Page)
    requires
        0 <= head < pages.len(),
    ensures
        ({
            let npages = pages.take(head + 1).push(p);
            let nhead = head + 1;
            &&& npages[nhead] == p
            &&& nhead == npages.len() - 1
        }),
{
}

} // verus!
