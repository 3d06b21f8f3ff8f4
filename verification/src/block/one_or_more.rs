//! A per-monitor value holder that starts as a single scalar and promotes to
//! an indexed sequence when a second slot is needed, so that a block shown on
//! one monitor never allocates a buffer.

use vstd::prelude::*;

verus! {

#[derive(Debug)]
pub enum OneOrMore<T> {
    One(T),
    More(Vec<T>),
}

impl<T> OneOrMore<T> {
    /// The held values, in slot order.
    pub open spec fn elems(&self) -> Seq<T> {
        match self {
            OneOrMore::One(t) => seq![*t],
            OneOrMore::More(m) => m@,
        }
    }

    /// Whether the holder is still in scalar form.
    pub open spec fn is_one(&self) -> bool {
        self is One
    }

    /// The value a slot lookup answers: the scalar form answers every index
    /// with its single value.
    pub open spec fn slot(&self, i: int) -> T {
        if self is One {
            self.elems()[0]
        } else {
            self.elems()[i]
        }
    }

    /// An index may be looked up when the holder is scalar or the index is in
    /// range.
    pub open spec fn valid_index(&self, i: int) -> bool {
        self is One || 0 <= i < self.elems().len()
    }

    pub fn len(&self) -> (r: usize)
        ensures
            r == self.elems().len(),
    {
        match self {
            OneOrMore::One(_) => 1,
            OneOrMore::More(m) => m.len(),
        }
    }

    /// Appends a slot; the holder is in sequence form afterwards and never
    /// reverts to scalar form.
    pub fn push(&mut self, t: T)
        ensures
            !final (self).is_one(),
            final (self).elems() == old(self).elems().push(t),
    {
        let mut tmp = OneOrMore::More(Vec::new());
        core::mem::swap(self, &mut tmp);
        match tmp {
            OneOrMore::One(o) => {
                let mut v: Vec<T> = Vec::new();
                v.push(o);
                v.push(t);
                *self = OneOrMore::More(v);
            },
            OneOrMore::More(mut m) => {
                m.push(t);
                *self = OneOrMore::More(m);
            },
        }
        proof {
            assert(self.elems() =~= old(self).elems().push(t));
        }
    }

    /// Borrows the value answering the given slot.
    pub fn get(&self, i: usize) -> (r: &T)
        requires
            self.valid_index(i as int),
        ensures
            *r == self.slot(i as int),
    {
        match self {
            OneOrMore::One(t) => t,
            OneOrMore::More(m) => &m[i],
        }
    }

    /// Replaces the value answering the given slot; the representation is
    /// kept.
    pub fn set(&mut self, i: usize, t: T)
        requires
            old(self).valid_index(i as int),
        ensures
            final (self).is_one() == old(self).is_one(),
            final (self).elems() == if old(self).is_one() {
                seq![t]
            } else {
                old(self).elems().update(i as int, t)
            },
    {
        match self {
            OneOrMore::One(_) => {
                *self = OneOrMore::One(t);
            },
            OneOrMore::More(m) => {
                m.set(i, t);
            },
        }
    }

    /// Read-only traversal over the slots.
    pub fn iter(&self) -> (r: Iter<'_, T>)
        ensures
            r.remaining() == self.elems(),
    {
        match self {
            OneOrMore::One(t) => Iter::One(Some(t)),
            OneOrMore::More(m) => {
                proof {
                    assert(m@.skip(0) =~= m@);
                }
                Iter::More(m, 0)
            },
        }
    }
}

pub enum Iter<'a, T> {
    One(Option<&'a T>),
    More(&'a Vec<T>, usize),
}

impl<'a, T> Iter<'a, T> {
    /// The values not yet handed out.
    pub open spec fn remaining(&self) -> Seq<T> {
        match self {
            Iter::One(o) => match o {
                Some(t) => seq![**t],
                None => Seq::empty(),
            },
            Iter::More(m, i) => {
                if 0 <= *i <= m@.len() {
                    m@.skip(*i as int)
                } else {
                    Seq::empty()
                }
            },
        }
    }

    /// Hands out the next slot value, left to right.
    pub fn next(&mut self) -> (r: Option<&'a T>)
        ensures
            match r {
                Some(t) => old(self).remaining().len() > 0 && *t == old(self).remaining()[0]
                    && final (self).remaining() == old(self).remaining().drop_first(),
                None => old(self).remaining().len() == 0 && final (self).remaining() == old(
                    self,
                ).remaining(),
            },
    {
        let res: Option<&'a T>;
        match self {
            Iter::One(o) => {
                res = *o;
                *o = None;
            },
            Iter::More(m, i) => {
                let v: &'a Vec<T> = *m;
                if *i < v.len() {
                    res = Some(&v[*i]);
                    *i = *i + 1;
                } else {
                    res = None;
                }
            },
        }
        proof {
            match res {
                Some(_) => {
                    assert(self.remaining() =~= old(self).remaining().drop_first());
                },
                None => {
                    assert(self.remaining() =~= old(self).remaining());
                },
            }
        }
        res
    }
}

} // verus!
