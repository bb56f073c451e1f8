//! The argument mapping of a command line: an association list from
//! argument names to raw string values.  A later binding of the same name
//! overwrites the earlier one, and lookup finds the surviving binding.

use vstd::prelude::*;

use crate::text::str_eq;

verus! {

/// The abstract content: name/value pairs in storage order, names distinct
/// by construction.
pub open spec fn args_get(a: Seq<(Seq<char>, Seq<char>)>, k: Seq<char>) -> Option<Seq<char>>
    decreases a.len(),
{
    if a.len() == 0 {
        None
    } else if a[0].0 == k {
        Some(a[0].1)
    } else {
        args_get(a.skip(1), k)
    }
}

pub open spec fn args_remove(a: Seq<(Seq<char>, Seq<char>)>, k: Seq<char>) -> Seq<
    (Seq<char>, Seq<char>),
>
    decreases a.len(),
{
    if a.len() == 0 {
        a
    } else if a[0].0 == k {
        a.skip(1)
    } else {
        seq![a[0]] + args_remove(a.skip(1), k)
    }
}

/// Overwriting insertion: the old binding goes, the new one comes last.
pub open spec fn args_insert(
    a: Seq<(Seq<char>, Seq<char>)>,
    k: Seq<char>,
    v: Seq<char>,
) -> Seq<(Seq<char>, Seq<char>)> {
    args_remove(a, k).push((k, v))
}

proof fn lemma_args_first_match(a: Seq<(Seq<char>, Seq<char>)>, k: Seq<char>, i: int)
    requires
        0 <= i < a.len(),
        a[i].0 == k,
        forall|j: int| 0 <= j < i ==> a[j].0 != k,
    ensures
        args_get(a, k) == Some(a[i].1),
        args_remove(a, k) =~= a.take(i) + a.skip(i + 1),
    decreases i,
{
    if i == 0 {
        assert(a.take(0) =~= Seq::empty());
        assert(Seq::empty() + a.skip(1) =~= a.skip(1));
    } else {
        assert(a.skip(1)[i - 1] == a[i]);
        assert(forall|j: int| 0 <= j < i - 1 ==> a.skip(1)[j] == a[j + 1]);
        lemma_args_first_match(a.skip(1), k, i - 1);
        assert(seq![a[0]] + (a.skip(1).take(i - 1) + a.skip(1).skip(i)) =~= a.take(i) + a.skip(
            i + 1,
        ));
    }
}

pub proof fn lemma_args_no_match(a: Seq<(Seq<char>, Seq<char>)>, k: Seq<char>)
    requires
        forall|j: int| 0 <= j < a.len() ==> a[j].0 != k,
    ensures
        args_get(a, k) is None,
        args_remove(a, k) =~= a,
    decreases a.len(),
{
    if a.len() > 0 {
        assert(forall|j: int| 0 <= j < a.len() - 1 ==> a.skip(1)[j] == a[j + 1]);
        lemma_args_no_match(a.skip(1), k);
        assert(seq![a[0]] + a.skip(1) =~= a);
    }
}

/// Removing an absent name changes nothing.
pub proof fn lemma_args_remove_absent(a: Seq<(Seq<char>, Seq<char>)>, k: Seq<char>)
    requires
        args_get(a, k) is None,
    ensures
        args_remove(a, k) == a,
    decreases a.len(),
{
    if a.len() > 0 {
        lemma_args_remove_absent(a.skip(1), k);
        assert(seq![a[0]] + a.skip(1) =~= a);
    }
}

/// The argument mapping of one command line.
pub struct Args {
    pub entries: Vec<(String, String)>,
}

impl View for Args {
    type V = Seq<(Seq<char>, Seq<char>)>;

    open spec fn view(&self) -> Seq<(Seq<char>, Seq<char>)> {
        Seq::new(self.entries@.len(), |i: int| (self.entries@[i].0@, self.entries@[i].1@))
    }
}

impl Args {
    pub fn new() -> (a: Args)
        ensures
            a@ == Seq::<(Seq<char>, Seq<char>)>::empty(),
    {
        let a = Args { entries: Vec::new() };
        proof {
            assert(a@ =~= Seq::<(Seq<char>, Seq<char>)>::empty());
        }
        a
    }

    pub fn len(&self) -> (n: usize)
        ensures
            n == self@.len(),
    {
        self.entries.len()
    }

    /// The position of the binding of `k`, if there is one.
    fn find(&self, k: &str) -> (r: Option<usize>)
        ensures
            match r {
                Some(i) => i < self@.len() && self@[i as int].0 == k@ && forall|j: int|
                    0 <= j < i ==> self@[j].0 != k@,
                None => forall|j: int| 0 <= j < self@.len() ==> self@[j].0 != k@,
            },
    {
        let mut i: usize = 0;
        while i < self.entries.len()
            invariant
                i <= self@.len(),
                self@.len() == self.entries@.len(),
                forall|j: int| 0 <= j < i ==> self@[j].0 != k@,
            decreases self@.len() - i,
        {
            if str_eq(self.entries[i].0.as_str(), k) {
                return Some(i);
            }
            i = i + 1;
        }
        None
    }

    pub fn get(&self, k: &str) -> (r: Option<&String>)
        ensures
            match r {
                Some(s) => args_get(self@, k@) == Some(s@),
                None => args_get(self@, k@) is None,
            },
    {
        match self.find(k) {
            Some(i) => {
                proof {
                    lemma_args_first_match(self@, k@, i as int);
                }
                Some(&self.entries[i].1)
            },
            None => {
                proof {
                    lemma_args_no_match(self@, k@);
                }
                None
            },
        }
    }

    pub fn remove(&mut self, k: &str) -> (r: Option<String>)
        ensures
            final(self)@ == args_remove(old(self)@, k@),
            match r {
                Some(s) => args_get(old(self)@, k@) == Some(s@),
                None => args_get(old(self)@, k@) is None,
            },
    {
        match self.find(k) {
            Some(i) => {
                proof {
                    lemma_args_first_match(old(self)@, k@, i as int);
                }
                let e = self.entries.remove(i);
                proof {
                    assert(self@ =~= old(self)@.take(i as int) + old(self)@.skip(i + 1));
                }
                Some(e.1)
            },
            None => {
                proof {
                    lemma_args_no_match(self@, k@);
                    assert(self@ =~= args_remove(old(self)@, k@));
                }
                None
            },
        }
    }

    /// An element-wise copy with the same content.
    pub fn copy_of(&self) -> (r: Args)
        ensures
            r@ == self@,
    {
        let mut entries: Vec<(String, String)> = Vec::new();
        let mut i: usize = 0;
        while i < self.entries.len()
            invariant
                i <= self.entries@.len(),
                entries@.len() == i,
                forall|j: int|
                    0 <= j < i ==> entries@[j].0@ == self.entries@[j].0@ && entries@[j].1@
                        == self.entries@[j].1@,
            decreases self.entries@.len() - i,
        {
            let k = self.entries[i].0.clone();
            let v = self.entries[i].1.clone();
            entries.push((k, v));
            i = i + 1;
        }
        let r = Args { entries };
        proof {
            assert(r@ =~= self@);
        }
        r
    }

    pub fn insert(&mut self, k: String, v: String)
        ensures
            final(self)@ == args_insert(old(self)@, k@, v@),
    {
        self.remove(k.as_str());
        self.entries.push((k, v));
        proof {
            assert(self@ =~= args_remove(old(self)@, k@).push((k@, v@)));
        }
    }
}

} // verus!
