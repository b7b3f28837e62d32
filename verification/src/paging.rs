//! A paged result as a forward-only sequence of items.
//!
//! The sequence holds what is left of the current page and the continuation
//! token of the page after it. It never fetches: when the current page is
//! used up it names the token of the page that it needs, and the caller
//! feeds that page in.

use vstd::prelude::*;

verus! {

/// One fetched page: its items in the order of arrival, and the token of
/// the page after it, if there is one.
pub struct Page<T> {
    pub items: Vec<T>,
    pub next: Option<String>,
}

/// What a pull from the sequence gives.
#[derive(Debug, PartialEq, Eq)]
pub enum Pull<T> {
    /// The next item.
    Item(T),
    /// The current page is used up; the page with this token is to be fed.
    NeedPage(String),
    /// Nothing is left and no page follows.
    Done,
}

/// The view of an optional token.
pub open spec fn token_view(token: Option<String>) -> Option<Seq<char>> {
    match token {
        Some(t) => Some(t@),
        None => None,
    }
}

/// The items of a list in the opposite order.
pub fn reversed<T>(items: Vec<T>) -> (r: Vec<T>)
    ensures
        r@ == items@.reverse(),
{
    let ghost all = items@;
    let mut items = items;
    let mut out: Vec<T> = Vec::new();
    while items.len() > 0
        invariant
            items@.len() + out@.len() == all.len(),
            items@ == all.take(items@.len() as int),
            forall|j: int| 0 <= j < out@.len() ==> out@[j] == all[all.len() - 1 - j],
        decreases items@.len(),
    {
        let last = items.pop();
        match last {
            Some(x) => {
                out.push(x);
            },
            None => {},
        }
    }
    proof {
        assert(out@ =~= all.reverse());
    }
    out
}

/// The items of successive pages, one after the other.
pub struct PagedSequence<T> {
    stack: Vec<T>,
    next: Option<String>,
}

impl<T> PagedSequence<T> {
    /// What is left of the pages fed so far, in the order in which it will
    /// be given out.
    pub closed spec fn remaining(&self) -> Seq<T> {
        self.stack@.reverse()
    }

    /// The continuation token: none where no page follows.
    pub closed spec fn token(&self) -> Option<Seq<char>> {
        token_view(self.next)
    }

    /// Nothing is left and no page follows.
    pub open spec fn exhausted(&self) -> bool {
        self.remaining().len() == 0 && self.token() is None
    }

    /// The sequence that starts with the first page of a query.
    pub fn open(first: Page<T>) -> (r: Self)
        ensures
            r.remaining() == first.items@,
            r.token() == token_view(first.next),
    {
        let Page { items, next } = first;
        let stack = reversed(items);
        proof {
            assert(stack@.reverse() =~= items@);
        }
        PagedSequence { stack, next }
    }

    /// Gives the next item, in the order of arrival; or, where the current
    /// page is used up, the token of the page to feed; or the end.
    pub fn pull(&mut self) -> (r: Pull<T>)
        ensures
            final(self).token() == old(self).token(),
            match r {
                Pull::Item(x) => old(self).remaining().len() > 0 && x == old(self).remaining()[0]
                    && final(self).remaining() == old(self).remaining().skip(1),
                Pull::NeedPage(t) => old(self).remaining().len() == 0 && old(self).token()
                    == Some(t@) && final(self).remaining() == old(self).remaining(),
                Pull::Done => old(self).exhausted() && final(self).exhausted(),
            },
    {
        let ghost before = self.stack@;
        match self.stack.pop() {
            Some(x) => {
                proof {
                    assert(self.stack@.reverse() =~= before.reverse().skip(1));
                }
                Pull::Item(x)
            },
            None => {
                match &self.next {
                    Some(t) => Pull::NeedPage(t.clone()),
                    None => Pull::Done,
                }
            },
        }
    }

    /// Takes in a fetched page: its items follow what is left, and its
    /// token replaces the one held.
    pub fn feed(&mut self, page: Page<T>)
        ensures
            final(self).remaining() == old(self).remaining() + page.items@,
            final(self).token() == token_view(page.next),
    {
        let ghost before = self.stack@;
        let Page { items, next } = page;
        let mut stack = reversed(items);
        stack.append(&mut self.stack);
        proof {
            assert(stack@ =~= items@.reverse() + before);
            assert(stack@.reverse() =~= before.reverse() + items@);
        }
        self.stack = stack;
        self.next = next;
    }

    /// How many items are left of the pages fed so far.
    pub fn buffered(&self) -> (n: usize)
        ensures
            n == self.remaining().len(),
    {
        self.stack.len()
    }
}

} // verus!
