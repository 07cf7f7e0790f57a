//! The tee: one byte stream duplicated to two sinks with divergent
//! failure handling.  The primary sink (the client response) is
//! required — its failure aborts the whole copy.  The secondary sink
//! (the cache file) is optional — the first time it fails it is dropped
//! for the remainder of the copy, and the primary continues unaffected.
//!
//! Sinks are modeled in memory with a scripted failure point, so every
//! outcome of a copy — including a failure injected partway through — is
//! pinned down exactly.  The unverified edge drives real sockets and
//! files through the same per-chunk policy.

use vstd::prelude::*;

verus! {

/// A copy fails only when its primary sink fails.
#[derive(Debug, PartialEq, Eq, Clone, Copy)]
pub enum CopyError {
    PrimarySinkFailed,
}

/// An in-memory byte sink with a scripted failure point: it accepts
/// whole chunks while its write budget lasts and fails from then on.
pub struct ByteSink {
    /// The bytes accepted so far.
    pub data: Vec<u8>,
    /// How many more writes the sink accepts; `None` means every write.
    pub budget: Option<usize>,
}

/// What a sink's budget becomes once a write is attempted.
pub open spec fn budget_after(b: Option<usize>) -> Option<usize> {
    match b {
        Option::None => Option::None,
        Option::Some(n) => if n > 0 {
            Option::Some((n - 1) as usize)
        } else {
            Option::Some(0usize)
        },
    }
}

impl ByteSink {
    /// Whether the sink still accepts `k` more writes.
    pub open spec fn accepts(&self, k: int) -> bool {
        match self.budget {
            Option::None => true,
            Option::Some(b) => k <= b,
        }
    }

    /// A sink that accepts every write.
    pub fn new() -> (s: ByteSink)
        ensures
            s.data@.len() == 0,
            s.budget is None,
    {
        ByteSink { data: Vec::new(), budget: None }
    }

    /// A sink that accepts `budget` more writes and fails from then on:
    /// the scripted fault of a cache file or a client that goes away.
    pub fn failing_after(budget: usize) -> (s: ByteSink)
        ensures
            s.data@.len() == 0,
            s.budget == Some(budget),
    {
        ByteSink { data: Vec::new(), budget: Some(budget) }
    }

    /// Take one chunk, whole: all of `buf`, or — once the budget is
    /// spent — nothing.
    pub fn write_all(&mut self, buf: &[u8]) -> (ok: bool)
        ensures
            ok == old(self).accepts(1),
            final(self).budget == budget_after(old(self).budget),
            ok ==> final(self).data@ == old(self).data@ + buf@,
            !ok ==> final(self).data@ == old(self).data@,
    {
        let ok = match self.budget {
            None => true,
            Some(b) => {
                if b > 0 {
                    self.budget = Some(b - 1);
                    true
                } else {
                    false
                }
            },
        };
        if ok {
            self.data.extend_from_slice(buf);
        }
        ok
    }
}

/// The ghost image of a sink: its bytes and its remaining budget.
pub struct SinkModel {
    pub data: Seq<u8>,
    pub budget: Option<int>,
}

/// The ghost image of an executable sink.
pub open spec fn sink_model(s: ByteSink) -> SinkModel {
    SinkModel {
        data: s.data@,
        budget: match s.budget {
            Option::None => Option::None,
            Option::Some(b) => Option::Some(b as int),
        },
    }
}

/// Whether a modeled sink still accepts `k` more writes.
pub open spec fn model_accepts(m: SinkModel, k: int) -> bool {
    match m.budget {
        Option::None => true,
        Option::Some(b) => k <= b,
    }
}

/// A modeled sink after one write attempt of `buf`.
pub open spec fn model_write(m: SinkModel, buf: Seq<u8>) -> SinkModel {
    SinkModel {
        data: if model_accepts(m, 1) {
            m.data + buf
        } else {
            m.data
        },
        budget: match m.budget {
            Option::None => Option::None,
            Option::Some(b) => if b > 0 {
                Option::Some(b - 1)
            } else {
                Option::Some(0int)
            },
        },
    }
}

/// The ghost image of the dual sink.
pub struct TeeModel {
    pub important: SinkModel,
    pub optional: Option<SinkModel>,
}

/// The dual sink: a required primary, and an optional secondary that
/// the first failure permanently removes.
pub struct OptionalTee {
    /// The client-facing sink; its failure aborts the copy.
    pub important: ByteSink,
    /// The cache-facing sink, until its first failure.
    pub optional: Option<ByteSink>,
}

/// The ghost image of an executable dual sink.
pub open spec fn tee_model(t: OptionalTee) -> TeeModel {
    TeeModel {
        important: sink_model(t.important),
        optional: match t.optional {
            Option::None => Option::None,
            Option::Some(s) => Option::Some(sink_model(s)),
        },
    }
}

/// One chunk through the dual sink: the primary takes it first and its
/// outcome is the step's outcome; the secondary then takes it too, or is
/// dropped if it fails.
pub open spec fn tee_step(t: TeeModel, buf: Seq<u8>) -> (TeeModel, bool) {
    (
        TeeModel {
            important: model_write(t.important, buf),
            optional: match t.optional {
                Option::None => Option::None,
                Option::Some(s) => if model_accepts(s, 1) {
                    Option::Some(model_write(s, buf))
                } else {
                    Option::None
                },
            },
        },
        model_accepts(t.important, 1),
    )
}

/// A whole copy: the chunks fed in order, stopping at the chunk on
/// which the primary fails.
pub open spec fn tee_run(t: TeeModel, chunks: Seq<Seq<u8>>) -> (TeeModel, bool)
    decreases chunks.len(),
{
    if chunks.len() == 0 {
        (t, true)
    } else {
        let s = tee_step(t, chunks.first());
        if !s.1 {
            (s.0, false)
        } else {
            tee_run(s.0, chunks.drop_first())
        }
    }
}

/// The views of a chunk sequence.
pub open spec fn chunks_view(v: Seq<Vec<u8>>) -> Seq<Seq<u8>> {
    Seq::new(v.len(), |i: int| v[i]@)
}

/// All the bytes of a chunk sequence, in order.
pub open spec fn concat_chunks(chunks: Seq<Seq<u8>>) -> Seq<u8>
    decreases chunks.len(),
{
    if chunks.len() == 0 {
        Seq::empty()
    } else {
        chunks.first() + concat_chunks(chunks.drop_first())
    }
}

impl OptionalTee {
    /// A dual sink over a required and an optional byte sink.
    pub fn new(important: ByteSink, optional: ByteSink) -> (t: OptionalTee)
        ensures
            t.important == important,
            t.optional == Some(optional),
    {
        OptionalTee { important, optional: Some(optional) }
    }

    /// Write one chunk to both sinks — the primary first, then the
    /// secondary, in that order — and report the primary's outcome.  A
    /// secondary failure drops the secondary for good and is otherwise
    /// invisible.
    pub fn write(&mut self, buf: &[u8]) -> (ok: bool)
        ensures
            tee_model(*final(self)) == tee_step(tee_model(*old(self)), buf@).0,
            ok == tee_step(tee_model(*old(self)), buf@).1,
    {
        let ok = self.important.write_all(buf);
        let dropped = match &mut self.optional {
            Some(s) => !s.write_all(buf),
            None => false,
        };
        if dropped {
            self.optional = None;
        }
        proof {
            assert(tee_model(*self) =~= tee_step(tee_model(*old(self)), buf@).0);
        }
        ok
    }
}

/// Copy a chunked stream through the dual sink, chunk by chunk.  A
/// primary failure aborts the copy there and is the one error; however
/// the secondary fares, the copy goes on.
pub fn copy_tee(chunks: &Vec<Vec<u8>>, tee: &mut OptionalTee) -> (r: Result<(), CopyError>)
    ensures
        tee_model(*final(tee)) == tee_run(tee_model(*old(tee)), chunks_view(chunks@)).0,
        r is Ok <==> tee_run(tee_model(*old(tee)), chunks_view(chunks@)).1,
{
    let ghost cv = chunks_view(chunks@);
    let mut i: usize = 0;
    proof {
        assert(cv.skip(0) =~= cv);
    }
    while i < chunks.len()
        invariant
            i <= chunks@.len(),
            cv == chunks_view(chunks@),
            tee_run(tee_model(*tee), cv.skip(i as int)) == tee_run(tee_model(*old(tee)), cv),
        decreases chunks@.len() - i,
    {
        proof {
            assert(cv.skip(i as int).first() == chunks@[i as int]@);
            assert(cv.skip(i as int).drop_first() =~= cv.skip(i + 1));
        }
        let ok = tee.write(chunks[i].as_slice());
        if !ok {
            return Err(CopyError::PrimarySinkFailed);
        }
        i = i + 1;
    }
    proof {
        assert(cv.skip(chunks@.len() as int) =~= Seq::<Seq<u8>>::empty());
    }
    Ok(())
}

/// Injecting a failure on the cache-file sink — at any point, or having
/// no cache sink at all — never changes the bytes delivered to the
/// client sink, nor whether the copy succeeds: two copies of the same
/// stream whose primaries start equal end with equal primaries and
/// equal outcomes, whatever their secondaries.
pub proof fn lemma_secondary_isolated(t1: TeeModel, t2: TeeModel, chunks: Seq<Seq<u8>>)
    requires
        t1.important == t2.important,
    ensures
        tee_run(t1, chunks).0.important == tee_run(t2, chunks).0.important,
        tee_run(t1, chunks).1 == tee_run(t2, chunks).1,
    decreases chunks.len(),
{
    if chunks.len() > 0 {
        lemma_secondary_isolated(
            tee_step(t1, chunks.first()).0,
            tee_step(t2, chunks.first()).0,
            chunks.drop_first(),
        );
    }
}

/// With no failure on either sink, the copy succeeds and both sinks
/// receive exactly the bytes of the stream: the client response and the
/// cache file come out byte-identical.
pub proof fn lemma_tee_full_copy(t: TeeModel, chunks: Seq<Seq<u8>>)
    requires
        model_accepts(t.important, chunks.len() as int),
        t.optional matches Some(s) && model_accepts(s, chunks.len() as int),
    ensures
        tee_run(t, chunks).1,
        tee_run(t, chunks).0.important.data == t.important.data + concat_chunks(chunks),
        tee_run(t, chunks).0.optional matches Some(s2) && s2.data == t.optional->0.data
            + concat_chunks(chunks),
    decreases chunks.len(),
{
    if chunks.len() == 0 {
        assert(t.important.data + concat_chunks(chunks) =~= t.important.data);
        assert(t.optional->0.data + concat_chunks(chunks) =~= t.optional->0.data);
    } else {
        let s = tee_step(t, chunks.first());
        lemma_tee_full_copy(s.0, chunks.drop_first());
        assert(s.0.important.data + concat_chunks(chunks.drop_first()) =~= t.important.data
            + concat_chunks(chunks));
        assert(s.0.optional->0.data + concat_chunks(chunks.drop_first()) =~= t.optional->0.data
            + concat_chunks(chunks));
    }
}

} // verus!
