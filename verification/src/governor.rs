//! Keeping the processors at full speed during a run.

use vstd::prelude::*;

use crate::text::{
    chars_are, chars_of, lemma_trim_keeps, lemma_trim_twice, string_of, trim, trimmed,
};

verus! {

/// The governors that were replaced, each with the file that sets it.
#[derive(Debug)]
pub struct GovernorGuard {
    pub saved: Vec<(String, String)>,
}

/// The governor to put back after a run, where it is not `performance` already.
pub open spec fn to_replace(text: Seq<char>) -> Option<Seq<char>> {
    if trim(text) == "performance"@ {
        None
    } else {
        Some(trim(text))
    }
}

impl GovernorGuard {
    /// The files whose governors were replaced, each with what it is to read again.
    pub open spec fn pairs(self) -> Seq<(Seq<char>, Seq<char>)> {
        Seq::new(self.saved@.len(), |i: int| (self.saved@[i].0@, self.saved@[i].1@))
    }

    /// Nothing is replaced yet.
    pub fn new() -> (r: Self)
        ensures
            r.saved@.len() == 0,
            r.pairs() == Seq::<(Seq<char>, Seq<char>)>::empty(),
    {
        GovernorGuard { saved: Vec::new() }
    }

    /// Whether the governor in a file is to be replaced, and what it is.
    pub fn replaces(&self, text: &str) -> (r: Option<String>)
        ensures
            match r {
                Some(prev) => to_replace(text@) == Some(prev@),
                None => to_replace(text@) is None,
            },
    {
        let chars = chars_of(text);
        let t = trimmed(chars.as_slice());
        if chars_are(t.as_slice(), "performance") {
            None
        } else {
            Some(string_of(t.as_slice()))
        }
    }

    /// Takes note of a governor that was replaced.
    pub fn record(&mut self, path: String, previous: String)
        ensures
            final(self).saved@ == old(self).saved@.push((path, previous)),
            final(self).pairs() == old(self).pairs().push((path@, previous@)),
    {
        self.saved.push((path, previous));
    }
}

/// What files read, and what is saved of them, once the first `n` of some paths were
/// looked at: a file that can be read and written and holds another governor is
/// replaced and saved.
pub open spec fn pinned(
    files: Map<Seq<char>, Seq<char>>,
    writable: Set<Seq<char>>,
    paths: Seq<Seq<char>>,
    n: nat,
) -> (Map<Seq<char>, Seq<char>>, Seq<(Seq<char>, Seq<char>)>)
    decreases n,
{
    if n == 0 {
        (files, Seq::empty())
    } else {
        let (now, saved) = pinned(files, writable, paths, (n - 1) as nat);
        let p = paths[n - 1];
        if now.dom().contains(p) && writable.contains(p) && to_replace(now[p]) is Some {
            (now.insert(p, "performance"@), saved.push((p, to_replace(now[p])->0)))
        } else {
            (now, saved)
        }
    }
}

/// What files read once the first `n` saved governors are written back.
pub open spec fn put_back(
    files: Map<Seq<char>, Seq<char>>,
    saved: Seq<(Seq<char>, Seq<char>)>,
    n: nat,
) -> Map<Seq<char>, Seq<char>>
    decreases n,
{
    if n == 0 {
        files
    } else {
        put_back(files, saved, (n - 1) as nat).insert(saved[n - 1].0, saved[n - 1].1)
    }
}

/// Whether a file is among the first `n` that were saved.
pub open spec fn saved_by(saved: Seq<(Seq<char>, Seq<char>)>, n: nat, p: Seq<char>) -> bool {
    exists|i: int| 0 <= i < n && (#[trigger] saved[i]).0 == p
}

proof fn lemma_performance()
    ensures
        trim("performance"@) == "performance"@,
{
    reveal_strlit("performance");
    lemma_trim_keeps("performance"@);
}

/// What holds between what files read, what they read before, and what is saved.
spec fn pins(
    files: Map<Seq<char>, Seq<char>>,
    writable: Set<Seq<char>>,
    now: Map<Seq<char>, Seq<char>>,
    saved: Seq<(Seq<char>, Seq<char>)>,
) -> bool {
    &&& now.dom() == files.dom()
    &&& forall|i: int|
        0 <= i < saved.len() ==> {
            let (p, text) = #[trigger] saved[i];
            &&& files.dom().contains(p)
            &&& writable.contains(p)
            &&& trim(files[p]) != "performance"@
            &&& text == trim(files[p])
            &&& now[p] == "performance"@
        }
    &&& forall|p: Seq<char>|
        #![trigger now[p]]
        files.dom().contains(p) && !saved_by(saved, saved.len(), p) ==> now[p] == files[p]
}

proof fn lemma_pinned(
    files: Map<Seq<char>, Seq<char>>,
    writable: Set<Seq<char>>,
    paths: Seq<Seq<char>>,
    n: nat,
)
    requires
        n <= paths.len(),
    ensures
        pins(
            files,
            writable,
            pinned(files, writable, paths, n).0,
            pinned(files, writable, paths, n).1,
        ),
        forall|i: int|
            #![trigger paths[i]]
            0 <= i < n && files.dom().contains(paths[i]) && writable.contains(paths[i]) ==> trim(
                pinned(files, writable, paths, n).0[paths[i]],
            ) == "performance"@,
    decreases n,
{
    lemma_performance();
    if n > 0 {
        lemma_pinned(files, writable, paths, (n - 1) as nat);
        let (before, old_saved) = pinned(files, writable, paths, (n - 1) as nat);
        let (now, saved) = pinned(files, writable, paths, n);
        let p = paths[n - 1];
        if before.dom().contains(p) && writable.contains(p) && to_replace(before[p]) is Some {
            assert(!saved_by(old_saved, old_saved.len(), p));
            assert(before[p] == files[p]);
            assert(saved[old_saved.len() as int].0 == p);
            assert forall|q: Seq<char>|
                files.dom().contains(q) && !saved_by(saved, saved.len(), q) implies #[trigger] now[q]
                == files[q] by {
                if saved_by(old_saved, old_saved.len(), q) {
                    let i = choose|i: int| 0 <= i < old_saved.len() && (#[trigger] old_saved[i]).0 == q;
                    assert(saved[i].0 == q);
                }
                assert(before[q] == files[q]);
            }
            assert(now.dom() =~= files.dom());
        }
    }
}

proof fn lemma_put_back(
    files: Map<Seq<char>, Seq<char>>,
    writable: Set<Seq<char>>,
    now: Map<Seq<char>, Seq<char>>,
    saved: Seq<(Seq<char>, Seq<char>)>,
    n: nat,
)
    requires
        pins(files, writable, now, saved),
        n <= saved.len(),
    ensures
        put_back(now, saved, n).dom() == files.dom(),
        forall|p: Seq<char>|
            #![trigger put_back(now, saved, n)[p]]
            files.dom().contains(p) ==> put_back(now, saved, n)[p] == if saved_by(saved, n, p) {
                trim(files[p])
            } else {
                now[p]
            },
    decreases n,
{
    if n > 0 {
        let m = (n - 1) as nat;
        lemma_put_back(files, writable, now, saved, m);
        assert(put_back(now, saved, n).dom() =~= files.dom());
        assert forall|p: Seq<char>| files.dom().contains(p) implies #[trigger] put_back(
            now,
            saved,
            n,
        )[p] == if saved_by(saved, n, p) {
            trim(files[p])
        } else {
            now[p]
        } by {
            let earlier = put_back(now, saved, m)[p];
            if saved[m as int].0 == p {
                assert(saved_by(saved, n, p));
            } else {
                assert(saved_by(saved, n, p) == saved_by(saved, m, p));
            }
        }
    }
}

/// The governors come back. While they are replaced, each file that was looked at and
/// can be read and written reads `performance`. Once the saved texts are written back,
/// every file reads what it read before but for white space at its ends. A file is
/// written only where it was saved; one that read `performance` already, or could not
/// be read or written, never is.
pub proof fn governors_come_back(
    files: Map<Seq<char>, Seq<char>>,
    writable: Set<Seq<char>>,
    paths: Seq<Seq<char>>,
)
    ensures
        ({
            let (during, saved) = pinned(files, writable, paths, paths.len());
            let after = put_back(during, saved, saved.len());
            &&& forall|i: int|
                #![trigger paths[i]]
                0 <= i < paths.len() && files.dom().contains(paths[i]) && writable.contains(
                    paths[i],
                ) ==> trim(during[paths[i]]) == "performance"@
            &&& after.dom() == files.dom()
            &&& forall|p: Seq<char>|
                #![trigger after[p]]
                files.dom().contains(p) ==> {
                    &&& trim(after[p]) == trim(files[p])
                    &&& saved_by(saved, saved.len(), p) ==> after[p] == trim(files[p])
                    &&& !saved_by(saved, saved.len(), p) ==> after[p] == files[p]
                }
            &&& forall|p: Seq<char>| #[trigger]
                saved_by(saved, saved.len(), p) ==> files.dom().contains(p) && writable.contains(p)
                    && trim(files[p]) != "performance"@
        }),
{
    let (during, saved) = pinned(files, writable, paths, paths.len());
    let after = put_back(during, saved, saved.len());
    lemma_pinned(files, writable, paths, paths.len());
    lemma_put_back(files, writable, during, saved, saved.len());
    assert forall|p: Seq<char>| files.dom().contains(p) implies {
        &&& trim(#[trigger] after[p]) == trim(files[p])
        &&& saved_by(saved, saved.len(), p) ==> after[p] == trim(files[p])
        &&& !saved_by(saved, saved.len(), p) ==> after[p] == files[p]
    } by {
        lemma_trim_twice(files[p]);
    }
}

} // verus!
