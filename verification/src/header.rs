//! The header mapping shared by the CGI response parser and the
//! response translator: field names to raw values, one value per name.

use vstd::prelude::*;

verus! {

/// Compare two byte strings.
pub fn bytes_eq(a: &[u8], b: &[u8]) -> (r: bool)
    ensures
        r == (a@ == b@),
{
    if a.len() != b.len() {
        return false;
    }
    let mut i: usize = 0;
    while i < a.len()
        invariant
            i <= a@.len(),
            a@.len() == b@.len(),
            forall|j: int| 0 <= j < i ==> a@[j] == b@[j],
        decreases a@.len() - i,
    {
        if a[i] != b[i] {
            return false;
        }
        i = i + 1;
    }
    proof {
        assert(a@ =~= b@);
    }
    true
}

/// The mapping view of a raw entry sequence.
spec fn view_of(entries: Seq<(Vec<u8>, Vec<u8>)>) -> Map<Seq<u8>, Seq<u8>> {
    Map::new(
        |k: Seq<u8>| exists|i: int| 0 <= i < entries.len() && entries[i].0@ == k,
        |k: Seq<u8>|
            {
                let i = choose|i: int| 0 <= i < entries.len() && entries[i].0@ == k;
                entries[i].1@
            },
    )
}

/// A header mapping: keys are field names, values are raw bytes.
/// Inserting under an existing name overwrites the old value; insertion
/// order carries no meaning.
#[derive(Debug)]
pub struct Header {
    entries: Vec<(Vec<u8>, Vec<u8>)>,
}

impl View for Header {
    type V = Map<Seq<u8>, Seq<u8>>;

    closed spec fn view(&self) -> Map<Seq<u8>, Seq<u8>> {
        view_of(self.entries@)
    }
}

impl Header {
    /// Keys are pairwise distinct, so the mapping view is unambiguous.
    pub closed spec fn wf(&self) -> bool {
        forall|i: int, j: int|
            0 <= i < j < self.entries@.len() ==> self.entries@[i].0@ != self.entries@[j].0@
    }

    pub fn new() -> (h: Header)
        ensures
            h.wf(),
            h@ == Map::<Seq<u8>, Seq<u8>>::empty(),
    {
        let h = Header { entries: Vec::new() };
        proof {
            assert(h@ =~= Map::<Seq<u8>, Seq<u8>>::empty());
        }
        h
    }

    /// The index of the entry holding `key`, if any.
    fn find(&self, key: &[u8]) -> (r: Option<usize>)
        ensures
            match r {
                Some(i) => i < self.entries@.len() && self.entries@[i as int].0@ == key@,
                None => forall|i: int|
                    0 <= i < self.entries@.len() ==> self.entries@[i].0@ != key@,
            },
    {
        let mut i: usize = 0;
        while i < self.entries.len()
            invariant
                i <= self.entries@.len(),
                forall|j: int| 0 <= j < i ==> self.entries@[j].0@ != key@,
            decreases self.entries@.len() - i,
        {
            if bytes_eq(self.entries[i].0.as_slice(), key) {
                return Some(i);
            }
            i = i + 1;
        }
        None
    }

    /// Look a field up by its exact name.
    pub fn get(&self, key: &[u8]) -> (r: Option<&Vec<u8>>)
        requires
            self.wf(),
        ensures
            match r {
                Some(v) => self@.contains_key(key@) && v@ == self@[key@],
                None => !self@.contains_key(key@),
            },
    {
        match self.find(key) {
            Some(i) => {
                proof {
                    let w = choose|w: int|
                        0 <= w < self.entries@.len() && self.entries@[w].0@ == key@;
                    assert(w == i);
                }
                Some(&self.entries[i].1)
            },
            None => None,
        }
    }

    /// Record `value` under `key`, overwriting any value recorded before.
    pub fn insert(&mut self, key: Vec<u8>, value: Vec<u8>)
        requires
            old(self).wf(),
        ensures
            final(self).wf(),
            final(self)@ == old(self)@.insert(key@, value@),
    {
        let ghost pre = self.entries@;
        match self.find(key.as_slice()) {
            Some(i) => {
                self.entries[i] = (key, value);
                proof {
                    assert forall|k: int, j: int|
                        0 <= k < j < self.entries@.len() implies self.entries@[k].0@
                        != self.entries@[j].0@ by {
                        if k != i && j != i {
                            assert(self.entries@[k] == pre[k]);
                            assert(self.entries@[j] == pre[j]);
                        }
                    }
                    lemma_view_insert(pre, self.entries@, i as int, key@, value@);
                }
            },
            None => {
                self.entries.push((key, value));
                proof {
                    lemma_view_insert(pre, self.entries@, pre.len() as int, key@, value@);
                }
            },
        }
    }
}

/// Updating or appending the entry for a key shifts the mapping view by
/// exactly one `insert`, as long as no other entry carries that key.
proof fn lemma_view_insert(
    pre: Seq<(Vec<u8>, Vec<u8>)>,
    post: Seq<(Vec<u8>, Vec<u8>)>,
    i: int,
    key: Seq<u8>,
    value: Seq<u8>,
)
    requires
        0 <= i <= pre.len(),
        post.len() == if i < pre.len() { pre.len() } else { pre.len() + 1 },
        forall|j: int| 0 <= j < pre.len() && j != i ==> post[j] == pre[j],
        forall|j: int| 0 <= j < pre.len() && j != i ==> #[trigger] pre[j].0@ != key,
        i < pre.len() ==> pre[i].0@ == key,
        i < post.len() && post[i].0@ == key && post[i].1@ == value,
        forall|k: int, j: int| 0 <= k < j < post.len() ==> post[k].0@ != post[j].0@,
    ensures
        view_of(post) == view_of(pre).insert(key, value),
{
    let m1 = view_of(post);
    let m2 = view_of(pre).insert(key, value);
    assert forall|k: Seq<u8>| m1.contains_key(k) implies m2.contains_key(k) by {
        let w = choose|w: int| 0 <= w < post.len() && post[w].0@ == k;
        if w != i {
            assert(pre[w].0@ == k);
        }
    }
    assert forall|k: Seq<u8>| m2.contains_key(k) implies m1.contains_key(k) by {
        if k == key {
            assert(post[i].0@ == k);
        } else {
            let w = choose|w: int| 0 <= w < pre.len() && pre[w].0@ == k;
            assert(post[w].0@ == k);
        }
    }
    assert forall|k: Seq<u8>| m1.contains_key(k) implies m1[k] == m2[k] by {
        let w = choose|w: int| 0 <= w < post.len() && post[w].0@ == k;
        if k == key {
            assert(w == i);
            assert(m1[k] == value);
        } else {
            assert(w != i);
            assert(pre[w].0@ == k);
            let v = choose|v: int| 0 <= v < pre.len() && pre[v].0@ == k;
            assert(post[v].0@ == k);
            assert(v == w);
            assert(m2[k] == pre[v].1@);
        }
    }
    assert(m1 =~= m2);
}

} // verus!
