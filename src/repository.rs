use vstd::prelude::*;

verus! {

/// A row type stored in a repository: it carries its own primary key and
/// can produce an exact copy of itself.
pub trait Record: Sized {
    spec fn key(&self) -> u64;

    fn id(&self) -> (r: u64)
        ensures
            r == self.key(),
    ;

    fn duplicate(&self) -> (r: Self)
        ensures
            r == *self,
    ;
}

/// Keys of `s` are strictly increasing from front to back.
pub open spec fn keys_increasing<T: Record>(s: Seq<T>) -> bool {
    forall|i: int, j: int| 0 <= i < j < s.len() ==> s[i].key() < s[j].key()
}

/// Some row of `s` has primary key `id`.
pub open spec fn has_key<T: Record>(s: Seq<T>, id: u64) -> bool {
    exists|i: int| 0 <= i < s.len() && s[i].key() == id
}

/// An ordered table of rows of one kind, ascending by primary key.
pub struct Repository<T: Record> {
    rows: Vec<T>,
}

impl<T: Record> View for Repository<T> {
    type V = Seq<T>;

    closed spec fn view(&self) -> Seq<T> {
        self.rows@
    }
}

impl<T: Record> Repository<T> {
    pub open spec fn wf(&self) -> bool {
        keys_increasing(self@)
    }

    pub open spec fn contains(&self, id: u64) -> bool {
        has_key(self@, id)
    }

    pub fn new() -> (r: Self)
        ensures
            r@ == Seq::<T>::empty(),
            r.wf(),
    {
        Repository { rows: Vec::new() }
    }

    pub fn len(&self) -> (r: usize)
        ensures
            r == self@.len(),
    {
        self.rows.len()
    }

    /// Position of the row with key `id`, by binary search over the ordered rows.
    pub fn position(&self, id: u64) -> (r: Option<usize>)
        requires
            self.wf(),
        ensures
            match r {
                Some(i) => i < self@.len() && self@[i as int].key() == id,
                None => !self.contains(id),
            },
    {
        let mut lo: usize = 0;
        let mut hi: usize = self.rows.len();
        while lo < hi
            invariant
                keys_increasing(self@),
                self.rows@ == self@,
                0 <= lo <= hi <= self@.len(),
                forall|k: int| 0 <= k < lo ==> self@[k].key() < id,
                forall|k: int| hi <= k < self@.len() ==> self@[k].key() > id,
            decreases hi - lo,
        {
            let mid: usize = lo + (hi - lo) / 2;
            let k = self.rows[mid].id();
            if k == id {
                return Some(mid);
            } else if k < id {
                lo = mid + 1;
            } else {
                hi = mid;
            }
        }
        None
    }

    /// The row at position `i`.
    pub fn at(&self, i: usize) -> (r: &T)
        requires
            i < self@.len(),
        ensures
            *r == self@[i as int],
    {
        &self.rows[i]
    }

    /// A copy of the row with key `id`, if there is one.
    pub fn get(&self, id: u64) -> (r: Option<T>)
        requires
            self.wf(),
        ensures
            match r {
                Some(x) => exists|i: int| 0 <= i < self@.len() && self@[i] == x && x.key() == id,
                None => !self.contains(id),
            },
    {
        match self.position(id) {
            Some(i) => Some(self.rows[i].duplicate()),
            None => None,
        }
    }

    /// Copies of all rows, ascending by key.
    pub fn rows(&self) -> (r: Vec<T>)
        ensures
            r@ == self@,
    {
        let mut out: Vec<T> = Vec::new();
        let mut i: usize = 0;
        while i < self.rows.len()
            invariant
                self.rows@ == self@,
                i <= self@.len(),
                out@ == self@.subrange(0, i as int),
            decreases self@.len() - i,
        {
            out.push(self.rows[i].duplicate());
            i = i + 1;
        }
        assert(out@ =~= self@);
        out
    }

    /// Appends a row whose key is above every key present.
    pub fn append(&mut self, row: T)
        requires
            old(self).wf(),
            forall|i: int| 0 <= i < old(self)@.len() ==> old(self)@[i].key() < row.key(),
        ensures
            final(self).wf(),
            final(self)@ == old(self)@.push(row),
            forall|x: u64| final(self).contains(x) <==> (old(self).contains(x) || x == row.key()),
    {
        self.rows.push(row);
        proof {
            let s = self@;
            assert forall|x: u64| self.contains(x) <==> (old(self).contains(x) || x == row.key()) by {
                if self.contains(x) {
                    let i = choose|i: int| 0 <= i < s.len() && s[i].key() == x;
                    if i < old(self)@.len() {
                        assert(old(self)@[i] == s[i]);
                    }
                }
                if old(self).contains(x) {
                    let i = choose|i: int| 0 <= i < old(self)@.len() && old(self)@[i].key() == x;
                    assert(s[i] == old(self)@[i]);
                }
                if x == row.key() {
                    assert(s[s.len() - 1] == row);
                }
            }
        }
    }

    /// Overwrites the row at position `i` with one of the same key.
    pub fn replace(&mut self, i: usize, row: T)
        requires
            old(self).wf(),
            i < old(self)@.len(),
            row.key() == old(self)@[i as int].key(),
        ensures
            final(self).wf(),
            final(self)@ == old(self)@.update(i as int, row),
            forall|x: u64| final(self).contains(x) <==> old(self).contains(x),
    {
        self.rows.set(i, row);
        proof {
            let s = self@;
            let o = old(self)@;
            assert forall|x: u64| self.contains(x) <==> old(self).contains(x) by {
                if self.contains(x) {
                    let j = choose|j: int| 0 <= j < s.len() && s[j].key() == x;
                    assert(o[j].key() == x);
                }
                if old(self).contains(x) {
                    let j = choose|j: int| 0 <= j < o.len() && o[j].key() == x;
                    assert(s[j].key() == x);
                }
            }
        }
    }

    /// Removes the row with key `id`; tells whether there was one.
    pub fn remove(&mut self, id: u64) -> (r: bool)
        requires
            old(self).wf(),
        ensures
            final(self).wf(),
            r == old(self).contains(id),
            r ==> exists|i: int|
                0 <= i < old(self)@.len() && old(self)@[i].key() == id && final(self)@ == old(
                    self,
                )@.remove(i),
            !r ==> final(self)@ == old(self)@,
            forall|j: int| 0 <= j < final(self)@.len() ==> old(self)@.contains(#[trigger] final(self)@[j]),
            forall|x: u64| final(self).contains(x) <==> (old(self).contains(x) && x != id),
    {
        match self.position(id) {
            Some(i) => {
                let ghost o = self@;
                let _ = self.rows.remove(i);
                proof {
                    let s = self@;
                    assert(s =~= o.remove(i as int));
                    assert forall|j: int| 0 <= j < s.len() implies o.contains(#[trigger] s[j]) by {
                        let j2 = if j < i { j } else { j + 1 };
                        assert(s[j] == o[j2]);
                    }
                    assert forall|a: int, b: int| 0 <= a < b < s.len() implies s[a].key()
                        < s[b].key() by {
                        let a2 = if a < i { a } else { a + 1 };
                        let b2 = if b < i { b } else { b + 1 };
                        assert(s[a] == o[a2]);
                        assert(s[b] == o[b2]);
                    }
                    assert forall|x: u64| self.contains(x) <==> (has_key(o, x) && x != id) by {
                        if self.contains(x) {
                            let j = choose|j: int| 0 <= j < s.len() && s[j].key() == x;
                            let j2 = if j < i { j } else { j + 1 };
                            assert(s[j] == o[j2]);
                            assert(j2 != i || o[j2].key() == id);
                        }
                        if has_key(o, x) && x != id {
                            let j = choose|j: int| 0 <= j < o.len() && o[j].key() == x;
                            assert(j != i);
                            let j2 = if j < i { j } else { j - 1 };
                            assert(s[j2] == o[j]);
                        }
                    }
                }
                true
            },
            None => false,
        }
    }
}

} // verus!
