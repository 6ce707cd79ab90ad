//! Multi-step lookahead over a sequence of items.
//!
//! The sequence is held materialized; a cursor walks ahead of the
//! consumption point without consuming, and `next` always takes the
//! front item and pulls the cursor back.
use vstd::prelude::*;

verus! {

/// Anything that can be wrapped for multi-step lookahead.
pub trait NPeekableExt<T>: Sized {
    fn npeekable(self) -> (r: NPeekable<T>)
        ensures
            r.remaining() == self.sequence(),
            r.cursor_at() == 0,
    ;

    spec fn sequence(&self) -> Seq<T>;
}

impl<T> NPeekableExt<T> for Vec<T> {
    fn npeekable(self) -> (r: NPeekable<T>) {
        NPeekable { items: self, cursor: 0 }
    }

    open spec fn sequence(&self) -> Seq<T> {
        self@
    }
}

pub struct NPeekable<T> {
    items: Vec<T>,
    cursor: usize,
}

impl<T> NPeekable<T> {
    /// The items not yet consumed, front first.
    pub closed spec fn remaining(&self) -> Seq<T> {
        self.items@
    }

    /// How far the lookahead cursor stands ahead of the front.
    pub closed spec fn cursor_at(&self) -> nat {
        self.cursor as nat
    }

    /// Consume and return the front item; the cursor is pulled back to it.
    pub fn next(&mut self) -> (r: Option<T>)
        ensures
            old(self).remaining().len() == 0 ==> r is None && final(self).remaining()
                == old(self).remaining() && final(self).cursor_at() == old(self).cursor_at(),
            old(self).remaining().len() > 0 ==> r == Some(old(self).remaining()[0]) && final(self).remaining() == old(self).remaining().skip(1) && final(self).cursor_at() == 0,
    {
        if self.items.len() != 0 {
            self.cursor = 0;
            Some(self.items.remove(0))
        } else {
            None
        }
    }

    /// Consume the front item only when the given test accepts the item
    /// under the cursor.
    pub fn next_if<F: Fn(&T) -> bool>(&mut self, func: F) -> (r: Option<T>)
        requires
            forall|t: &T| #[trigger] call_requires(func, (t,)),
        ensures
            ({
                let rem = old(self).remaining();
                let cur = old(self).cursor_at();
                match r {
                    Some(t) => cur < rem.len() && call_ensures(func, (&rem[cur as int],), true)
                        && rem.len() > 0 && t == rem[0] && final(self).remaining() == rem.skip(1)
                        && final(self).cursor_at() == 0,
                    None => final(self).remaining() == rem && final(self).cursor_at() == cur && (
                    cur < rem.len() ==> call_ensures(func, (&rem[cur as int],), false)),
                }
            }),
    {
        let test = match self.peek() {
            Some(item) => func(item),
            None => false,
        };
        if test {
            self.next()
        } else {
            None
        }
    }

    /// The item under the cursor, if any, without consuming.
    pub fn peek(&self) -> (r: Option<&T>)
        ensures
            match r {
                Some(t) => self.cursor_at() < self.remaining().len() && *t == self.remaining()[self.cursor_at() as int],
                None => self.cursor_at() >= self.remaining().len(),
            },
    {
        if self.cursor < self.items.len() {
            Some(&self.items[self.cursor])
        } else {
            None
        }
    }

    /// Step the cursor forward, then return the item now under it.
    pub fn peek_next(&mut self) -> (r: Option<&T>)
        ensures
            final(self).remaining() == old(self).remaining(),
            final(self).cursor_at() == if old(self).cursor_at() < old(self).remaining().len() {
                old(self).cursor_at() + 1
            } else {
                old(self).cursor_at()
            },
            match r {
                Some(t) => final(self).cursor_at() < final(self).remaining().len() && *t == final(self).remaining()[final(self).cursor_at() as int],
                None => final(self).cursor_at() >= final(self).remaining().len(),
            },
    {
        self.advance_cursor();
        self.peek()
    }

    /// Step the cursor forward; says whether an item was there to step
    /// over.
    pub fn advance_cursor(&mut self) -> (r: bool)
        ensures
            final(self).remaining() == old(self).remaining(),
            r == (old(self).cursor_at() < old(self).remaining().len()),
            final(self).cursor_at() == if r {
                old(self).cursor_at() + 1
            } else {
                old(self).cursor_at()
            },
    {
        if self.cursor < self.items.len() {
            self.cursor = self.cursor + 1;
            true
        } else {
            false
        }
    }

    /// Pull the cursor back to the front.
    pub fn reset_cursor(&mut self)
        ensures
            final(self).remaining() == old(self).remaining(),
            final(self).cursor_at() == 0,
    {
        self.cursor = 0;
    }

    /// The underlying sequence of items still to be consumed.
    pub fn unwrap(&mut self) -> (r: &mut Vec<T>)
        ensures
            r@ == old(self).remaining(),
            final(self).remaining() == final(r)@,
            final(self).cursor_at() == old(self).cursor_at(),
    {
        &mut self.items
    }
}

} // verus!
