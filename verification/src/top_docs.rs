//! The collector that keeps the best-scoring documents of a search over
//! many segments, and the per-segment collectors that feed it through a
//! channel.

use crate::error::Error;
use crate::posting_iterator::DocId;
use crossbeam_channel::{Receiver, Sender};
use vstd::prelude::*;

verus! {

/// The sending half of a channel of the `crossbeam_channel` crate.
#[verifier::external_type_specification]
#[verifier::external_body]
#[verifier::reject_recursive_types(T)]
pub struct ExSender<T>(Sender<T>);

/// The receiving half of a channel of the `crossbeam_channel` crate.
#[verifier::external_type_specification]
#[verifier::external_body]
#[verifier::reject_recursive_types(T)]
pub struct ExReceiver<T>(Receiver<T>);

/// `crossbeam_channel::unbounded`: the two halves of a new channel
/// without a limit.
#[verifier::external_body]
fn open_channel() -> (Sender<ScoreDoc>, Receiver<ScoreDoc>) {
    crossbeam_channel::unbounded()
}

/// `Sender::clone`: one more sending half of the same channel.
#[verifier::external_body]
fn share_sender(sender: &Sender<ScoreDoc>) -> Sender<ScoreDoc> {
    sender.clone()
}

/// `Sender::send`: whether the channel took the document. It does not
/// when the receiving half is gone.
#[verifier::external_body]
fn send_doc(sender: &Sender<ScoreDoc>, doc: ScoreDoc) -> bool {
    sender.send(doc).is_ok()
}

/// `Receiver::iter`, walked to its end: every document that is or comes
/// into the channel until the last sending half is gone, in the order of
/// arrival. It waits for as long as a sending half lives.
#[verifier::external_body]
fn drain(receiver: &Receiver<ScoreDoc>) -> Vec<ScoreDoc> {
    receiver.iter().collect()
}

/// A document and its score. The score is an integer that orders documents
/// as their relevance does: a higher score is a better match.
#[derive(Clone, Copy, Debug, PartialEq, Eq)]
pub struct ScoreDoc {
    pub doc: DocId,
    pub score: i32,
}

impl ScoreDoc {
    /// A document with its score.
    pub fn new(doc: DocId, score: i32) -> (r: ScoreDoc)
        ensures
            r == (ScoreDoc { doc, score }),
    {
        ScoreDoc { doc, score }
    }

    /// The id of the document.
    pub fn doc_id(&self) -> (r: DocId)
        ensures
            r == self.doc,
    {
        self.doc
    }

    /// The score of the document.
    pub fn score(&self) -> (r: i32)
        ensures
            r == self.score,
    {
        self.score
    }
}

/// The result of a search: how many documents matched, and the best of
/// them, the highest score first.
pub struct TopDocs {
    pub total_hits: usize,
    pub score_docs: Vec<ScoreDoc>,
}

impl TopDocs {
    /// How many documents matched.
    pub fn total_hits(&self) -> (r: usize)
        ensures
            r == self.total_hits,
    {
        self.total_hits
    }

    /// The best documents, the highest score first.
    pub fn score_docs(&self) -> (r: &Vec<ScoreDoc>)
        ensures
            r@ == self.score_docs@,
    {
        &self.score_docs
    }
}

/// The document `doc` of a segment whose ids are shifted by `doc_base`, as
/// the whole index knows it: under the id `doc + doc_base`, with its score.
/// There is none where the shifted id is no id.
pub open spec fn shifted(doc: DocId, doc_base: DocId, score: i32) -> Option<ScoreDoc> {
    if i32::MIN <= doc + doc_base <= i32::MAX {
        Some(ScoreDoc { doc: (doc + doc_base) as i32, score })
    } else {
        None
    }
}

/// Whether `s` lists its documents from the highest score to the lowest.
pub open spec fn ranked(s: Seq<ScoreDoc>) -> bool {
    forall|i: int, j: int| 0 <= i < j < s.len() ==> s[i].score >= s[j].score
}

/// Where a document with `score` enters a ranked list: behind every
/// document whose score is at least `score`.
pub open spec fn entry_rank(s: Seq<ScoreDoc>, score: i32) -> int
    decreases s.len(),
{
    if s.len() == 0 {
        0
    } else if s.last().score >= score {
        s.len() as int
    } else {
        entry_rank(s.drop_last(), score)
    }
}

/// The ranked list `s` with `doc` entered at its rank.
pub open spec fn place(s: Seq<ScoreDoc>, doc: ScoreDoc) -> Seq<ScoreDoc> {
    s.insert(entry_rank(s, doc.score), doc)
}

/// What a list of at most `capacity` best documents becomes when `doc` is
/// offered to it. Below capacity `doc` enters. At capacity it takes the
/// place of the last, a document of the lowest score, where its own score is
/// strictly higher, and else changes nothing.
pub open spec fn offer(hits: Seq<ScoreDoc>, capacity: nat, doc: ScoreDoc) -> Seq<ScoreDoc> {
    if hits.len() < capacity {
        place(hits, doc)
    } else if hits.len() > 0 && hits.last().score < doc.score {
        place(hits.drop_last(), doc)
    } else {
        hits
    }
}

/// Entering a document at its rank keeps a ranked list ranked.
pub proof fn lemma_place_ranked(s: Seq<ScoreDoc>, doc: ScoreDoc)
    requires
        ranked(s),
    ensures
        ranked(place(s, doc)),
        0 <= entry_rank(s, doc.score) <= s.len(),
{
    lemma_entry_rank(s, doc.score);
    let r = entry_rank(s, doc.score);
    let t = place(s, doc);
    assert forall|i: int, j: int| 0 <= i < j < t.len() implies t[i].score >= t[j].score by {
        if j < r {
            assert(t[i] == s[i] && t[j] == s[j]);
        } else if j == r {
            assert(t[i] == s[i]);
        } else if i < r {
            assert(t[i] == s[i] && t[j] == s[j - 1]);
        } else if i == r {
            assert(t[j] == s[j - 1]);
        } else {
            assert(t[i] == s[i - 1] && t[j] == s[j - 1]);
        }
    }
}

/// The rank lies in the list; every document before it in a ranked list
/// has at least the score, every one from it on a lower one.
pub proof fn lemma_entry_rank(s: Seq<ScoreDoc>, score: i32)
    requires
        ranked(s),
    ensures
        0 <= entry_rank(s, score) <= s.len(),
        forall|i: int| 0 <= i < entry_rank(s, score) ==> s[i].score >= score,
        forall|i: int| entry_rank(s, score) <= i < s.len() ==> s[i].score < score,
    decreases s.len(),
{
    if s.len() > 0 {
        if s.last().score >= score {
            assert forall|i: int| 0 <= i < s.len() implies s[i].score >= score by {
                if i < s.len() - 1 {
                    assert(s[i].score >= s[s.len() - 1].score);
                }
            }
        } else {
            let t = s.drop_last();
            lemma_drop_last_ranked(s);
            lemma_entry_rank(t, score);
            assert forall|i: int| 0 <= i < entry_rank(s, score) implies s[i].score >= score by {
                assert(t[i] == s[i]);
            }
            assert forall|i: int| entry_rank(s, score) <= i < s.len() implies s[i].score
                < score by {
                if i < t.len() {
                    assert(t[i] == s[i]);
                }
            }
        }
    }
}

struct LeafReaderContext {
    _ord: usize,
    doc_base: DocId,
}

/// Keeps the `estimated_hits` best documents of all that it is given, and
/// counts every one of them.
pub struct TopDocsCollector {
    /// The best documents so far, the highest score first.
    pq: Vec<ScoreDoc>,
    estimated_hits: usize,
    /// How many documents the collector has been given.
    total_hits: usize,
    reader_context: Option<LeafReaderContext>,
    channel: Option<(Sender<ScoreDoc>, Receiver<ScoreDoc>)>,
}

/// What a collector holds, as far as its results depend on it.
pub ghost struct CollectorState {
    pub hits: Seq<ScoreDoc>,
    pub capacity: nat,
    pub total_hits: nat,
    pub doc_base: Option<DocId>,
    pub has_channel: bool,
}

impl CollectorState {
    /// The state after one more document: it is counted, and offered to
    /// the best so far.
    pub open spec fn given(self, doc: ScoreDoc) -> CollectorState {
        CollectorState {
            hits: offer(self.hits, self.capacity, doc),
            total_hits: self.total_hits + 1,
            ..self
        }
    }

    /// The state after the documents of `docs`, given one after the other.
    pub open spec fn given_all(self, docs: Seq<ScoreDoc>) -> CollectorState
        decreases docs.len(),
    {
        if docs.len() == 0 {
            self
        } else {
            self.given_all(docs.drop_last()).given(docs.last())
        }
    }
}

impl CollectorState {
    /// The state after a parallel search in which `docs` arrived: the
    /// channel is closed, and the documents were given, unless the count
    /// had no room for them.
    pub open spec fn finished_with(self, docs: Seq<ScoreDoc>) -> CollectorState {
        let closed = CollectorState { has_channel: false, ..self };
        if closed.total_hits + docs.len() <= usize::MAX {
            closed.given_all(docs)
        } else {
            closed
        }
    }
}

impl CollectorState {
    /// What every collector's state satisfies: its documents are ranked,
    /// within its capacity, and no more than it was given.
    pub open spec fn wf(self) -> bool {
        &&& ranked(self.hits)
        &&& self.hits.len() <= self.capacity
        &&& self.hits.len() <= self.total_hits
    }
}

impl View for TopDocsCollector {
    type V = CollectorState;

    closed spec fn view(&self) -> CollectorState {
        CollectorState {
            hits: self.pq@,
            capacity: self.estimated_hits as nat,
            total_hits: self.total_hits as nat,
            doc_base: match self.reader_context {
                Some(context) => Some(context.doc_base),
                None => None,
            },
            has_channel: self.channel is Some,
        }
    }
}

impl TopDocsCollector {
    #[verifier::type_invariant]
    spec fn inv(&self) -> bool {
        &&& ranked(self.pq@)
        &&& self.pq@.len() <= self.estimated_hits
        &&& self.pq@.len() <= self.total_hits
    }

    /// The best documents so far, the highest score first.
    pub open spec fn hits(&self) -> Seq<ScoreDoc> {
        self@.hits
    }

    /// How many documents the collector keeps at most.
    pub open spec fn capacity(&self) -> nat {
        self@.capacity
    }

    /// How many documents the collector has been given.
    pub open spec fn total_hits(&self) -> nat {
        self@.total_hits
    }

    /// The id offset of the segment being collected, once one was
    /// announced.
    pub open spec fn doc_base(&self) -> Option<DocId> {
        self@.doc_base
    }

    /// Whether a channel for leaf collectors is open.
    pub open spec fn has_channel(&self) -> bool {
        self@.has_channel
    }

    /// A collector that keeps at most `estimated_hits` documents.
    pub fn new(estimated_hits: usize) -> (r: TopDocsCollector)
        ensures
            r@.wf(),
            r.hits() == Seq::<ScoreDoc>::empty(),
            r.capacity() == estimated_hits,
            r.total_hits() == 0,
            r.doc_base() is None,
            !r.has_channel(),
    {
        TopDocsCollector {
            pq: Vec::new(),
            estimated_hits,
            total_hits: 0,
            reader_context: None,
            channel: None,
        }
    }

    /// The count of all documents given and the best of them, the highest
    /// score first. The collector keeps its count and gives up its
    /// documents.
    pub fn top_docs(&mut self) -> (r: TopDocs)
        ensures
            r.total_hits == old(self).total_hits(),
            r.score_docs@ == old(self).hits(),
            ranked(r.score_docs@),
            r.score_docs@.len() <= old(self).capacity(),
            r.score_docs@.len() <= old(self).total_hits(),
            final(self)@.wf(),
            final(self)@ == (CollectorState { hits: Seq::empty(), ..old(self)@ }),
    {
        proof {
            use_type_invariant(&*self);
        }
        let mut score_docs: Vec<ScoreDoc> = Vec::new();
        std::mem::swap(&mut self.pq, &mut score_docs);
        proof {
            use_type_invariant(&*self);
        }
        TopDocs { total_hits: self.total_hits, score_docs }
    }

    /// Counts `doc` and offers it to the best documents so far.
    pub fn add_doc(&mut self, doc_id: DocId, score: i32)
        requires
            old(self).total_hits() < usize::MAX,
        ensures
            final(self)@.wf(),
            final(self)@ == old(self)@.given(ScoreDoc { doc: doc_id, score }),
    {
        proof {
            use_type_invariant(&*self);
        }
        let score_doc = ScoreDoc::new(doc_id, score);
        let mut pq: Vec<ScoreDoc> = Vec::new();
        std::mem::swap(&mut self.pq, &mut pq);
        self.total_hits = self.total_hits + 1;
        let len = pq.len();
        let mut enters = true;
        if len == self.estimated_hits {
            if len == 0 || pq[len - 1].score >= score {
                enters = false;
            } else {
                pq.pop();
                proof {
                    lemma_drop_last_ranked(old(self).pq@);
                }
            }
        }
        if enters {
            let ghost base = pq@;
            let mut rank = pq.len();
            assert(base.take(rank as int) =~= base);
            while rank > 0 && pq[rank - 1].score < score
                invariant
                    rank <= pq@.len(),
                    pq@ == base,
                    entry_rank(base.take(rank as int), score) == entry_rank(base, score),
                decreases rank,
            {
                assert(base.take(rank as int).drop_last() =~= base.take(rank - 1));
                rank -= 1;
            }
            proof {
                if rank > 0 {
                    assert(base.take(rank as int).last() == base[rank - 1]);
                }
                assert(entry_rank(base, score) == rank);
                lemma_place_ranked(base, score_doc);
            }
            pq.insert(rank, score_doc);
        }
        self.pq = pq;
        proof {
            use_type_invariant(&*self);
        }
    }

    /// Announces the segment whose documents follow: their ids are shifted
    /// by `doc_base` before they are offered.
    pub fn set_next_reader(&mut self, reader_ord: usize, doc_base: DocId) -> (r: Result<(), Error>)
        ensures
            final(self)@.wf(),
            r is Ok,
            final(self)@ == (CollectorState { doc_base: Some(doc_base), ..old(self)@ }),
    {
        proof {
            use_type_invariant(&*self);
        }
        self.reader_context = Some(LeafReaderContext { _ord: reader_ord, doc_base });
        proof {
            use_type_invariant(&*self);
        }
        Ok(())
    }

    /// Segments may be collected by leaf collectors of their own.
    pub fn support_parallel(&self) -> (r: bool)
        ensures
            r,
    {
        true
    }

    /// The collector needs the score of every document.
    pub fn needs_scores(&self) -> (r: bool)
        ensures
            r,
    {
        true
    }

    /// Whether `collect` takes the local id `doc`: a segment was announced,
    /// the shifted id is an id, and the count has room.
    pub open spec fn takes(&self, doc: DocId) -> bool {
        &&& self.doc_base() is Some
        &&& i32::MIN <= doc + self.doc_base()->Some_0 <= i32::MAX
        &&& self.total_hits() < usize::MAX
    }

    /// Gives the collector the document `doc` of the current segment with
    /// its score. Fails, and changes nothing, where no segment was announced
    /// or the count is full (`IllegalState`) or where the shifted id is no
    /// id (`IllegalArgument`).
    pub fn collect(&mut self, doc: DocId, score: i32) -> (r: Result<(), Error>)
        ensures
            final(self)@.wf(),
            old(self).takes(doc) ==> r is Ok && final(self)@ == old(self)@.given(
                ScoreDoc { doc: (doc + old(self).doc_base()->Some_0) as i32, score },
            ),
            !old(self).takes(doc) ==> r is Err && final(self)@ == old(self)@,
            !old(self).takes(doc) ==> (r->Err_0 == Error::IllegalArgument <==> old(self).doc_base() is Some && !(i32::MIN <= doc + old(self).doc_base()->Some_0 <= i32::MAX)),
            !old(self).takes(doc) ==> (r->Err_0 == Error::IllegalState <==> old(self).doc_base()
                is None || i32::MIN <= doc + old(self).doc_base()->Some_0 <= i32::MAX),
    {
        proof {
            use_type_invariant(&*self);
        }
        let doc_base = match &self.reader_context {
            Some(context) => context.doc_base,
            None => {
                return Err(Error::IllegalState);
            },
        };
        let global = match doc.checked_add(doc_base) {
            Some(global) => global,
            None => {
                return Err(Error::IllegalArgument);
            },
        };
        if self.total_hits == usize::MAX {
            return Err(Error::IllegalState);
        }
        self.add_doc(global, score);
        Ok(())
    }

    /// A collector for one segment whose ids are shifted by `doc_base`. It
    /// sends its documents into the channel of this collector, which is
    /// opened with the first leaf collector.
    pub fn leaf_collector(&mut self, doc_base: DocId) -> (r: Result<TopDocsLeafCollector, Error>)
        ensures
            final(self)@.wf(),
            r is Ok,
            r->Ok_0.doc_base() == doc_base,
            final(self)@ == (CollectorState { has_channel: true, ..old(self)@ }),
    {
        proof {
            use_type_invariant(&*self);
        }
        let mut channel: Option<(Sender<ScoreDoc>, Receiver<ScoreDoc>)> = None;
        std::mem::swap(&mut self.channel, &mut channel);
        let (sender, receiver) = match channel {
            Some(halves) => halves,
            None => open_channel(),
        };
        let leaf = TopDocsLeafCollector::new(doc_base, share_sender(&sender));
        self.channel = Some((sender, receiver));
        proof {
            use_type_invariant(&*self);
        }
        Ok(leaf)
    }

    /// Gives the collector the documents of `docs`, one after the other.
    /// Fails with `IllegalState`, and changes nothing, exactly when the
    /// count has no room for them.
    pub fn merge(&mut self, docs: &Vec<ScoreDoc>) -> (r: Result<(), Error>)
        ensures
            final(self)@.wf(),
            final(self).capacity() == old(self).capacity(),
            final(self).doc_base() == old(self).doc_base(),
            final(self).has_channel() == old(self).has_channel(),
            old(self).total_hits() + docs@.len() <= usize::MAX ==> r is Ok && final(self)@ == old(self)@.given_all(docs@) && final(self).total_hits() == old(self).total_hits()
                + docs@.len(),
            old(self).total_hits() + docs@.len() > usize::MAX ==> r is Err && r->Err_0
                == Error::IllegalState && final(self)@ == old(self)@,
    {
        proof {
            use_type_invariant(&*self);
        }
        if docs.len() > usize::MAX - self.total_hits {
            return Err(Error::IllegalState);
        }
        let mut i: usize = 0;
        assert(docs@.take(0) =~= Seq::<ScoreDoc>::empty());
        while i < docs.len()
            invariant
                i <= docs@.len(),
                old(self).total_hits() + docs@.len() <= usize::MAX,
                self@ == old(self)@.given_all(docs@.take(i as int)),
                self@.wf(),
                self.capacity() == old(self).capacity(),
                self.doc_base() == old(self).doc_base(),
                self.has_channel() == old(self).has_channel(),
                self.total_hits() == old(self).total_hits() + i,
            decreases docs@.len() - i,
        {
            let doc = docs[i];
            self.add_doc(doc.doc, doc.score);
            proof {
                let now = docs@.take(i + 1);
                assert(now.drop_last() =~= docs@.take(i as int));
                assert(now.last() == doc);
            }
            i += 1;
        }
        assert(docs@.take(i as int) =~= docs@);
        Ok(())
    }

    /// Ends a parallel search: closes the channel, waits until every leaf
    /// collector is gone, and merges what they sent in the order of arrival.
    /// What arrived is not for this collector to decide, so the result is
    /// that of [`TopDocsCollector::merge`] on some list of documents: each
    /// of them is counted once. Where no leaf collector was ever made there
    /// is nothing to merge: the call succeeds at once and changes nothing.
    pub fn finish(&mut self) -> (r: Result<(), Error>)
        ensures
            final(self)@.wf(),
            !old(self).has_channel() ==> r is Ok && final(self)@ == old(self)@,
            old(self).has_channel() ==> (exists|docs: Seq<ScoreDoc>|
                {
                    &&& final(self)@ == #[trigger] old(self)@.finished_with(docs)
                    &&& r is Ok <==> old(self).total_hits() + docs.len() <= usize::MAX
                    &&& r is Ok ==> final(self).total_hits() == old(self).total_hits()
                        + docs.len()
                    &&& r is Err ==> r->Err_0 == Error::IllegalState
                }),
            !final(self).has_channel(),
    {
        proof {
            use_type_invariant(&*self);
        }
        let mut channel: Option<(Sender<ScoreDoc>, Receiver<ScoreDoc>)> = None;
        std::mem::swap(&mut self.channel, &mut channel);
        match channel {
            Some((sender, receiver)) => {
                release(sender);
                let docs = drain(&receiver);
                let r = self.merge(&docs);
                assert(self@ == old(self)@.finished_with(docs@));
                r
            },
            None => Ok(()),
        }
    }
}

/// Gives up a sending half, so that the channel can close once the leaf
/// collectors have given up theirs.
fn release(sender: Sender<ScoreDoc>) {
}

/// The collector of one segment in a parallel search: it shifts the ids of
/// its documents and sends them to the collector that made it.
pub struct TopDocsLeafCollector {
    doc_base: DocId,
    channel: Sender<ScoreDoc>,
}

impl TopDocsLeafCollector {
    /// The id offset of the segment.
    pub closed spec fn doc_base(&self) -> DocId {
        self.doc_base
    }

    /// A leaf collector that shifts ids by `doc_base` and sends into
    /// `channel`.
    pub fn new(doc_base: DocId, channel: Sender<ScoreDoc>) -> (r: TopDocsLeafCollector)
        ensures
            r.doc_base() == doc_base,
    {
        TopDocsLeafCollector { doc_base, channel }
    }

    /// Ends the segment. There is nothing to clean up.
    pub fn finish_leaf(&mut self) -> (r: Result<(), Error>)
        ensures
            r is Ok,
            *final(self) == *old(self),
    {
        Ok(())
    }

    /// The collector needs the score of every document.
    pub fn needs_scores(&self) -> (r: bool)
        ensures
            r,
    {
        true
    }

    /// The message that a leaf collector with the id offset `doc_base`
    /// sends for the local document `doc` with `score`: the document under
    /// its shifted id with the same score, or nothing where the shifted id
    /// is no id.
    pub fn outgoing(doc: DocId, doc_base: DocId, score: i32) -> (r: Option<ScoreDoc>)
        ensures
            r == shifted(doc, doc_base, score),
    {
        match doc.checked_add(doc_base) {
            Some(global) => Some(ScoreDoc::new(global, score)),
            None => None,
        }
    }

    /// What `collect` returns once the channel has or has not taken the
    /// document.
    pub fn delivered(sent: bool) -> (r: Result<(), Error>)
        ensures
            sent ==> r is Ok,
            !sent ==> r is Err && r->Err_0 == Error::ChannelFailure,
    {
        if sent {
            Ok(())
        } else {
            Err(Error::ChannelFailure)
        }
    }

    /// Sends the message of [`TopDocsLeafCollector::outgoing`] for the
    /// document `doc` of this segment, as it is, to the collector. Fails
    /// with `IllegalArgument`, and sends nothing, exactly when there is no
    /// such message; else with `ChannelFailure` when the channel does not
    /// take it, as [`TopDocsLeafCollector::delivered`] says.
    pub fn collect(&mut self, doc: DocId, score: i32) -> (r: Result<(), Error>)
        ensures
            final(self).doc_base() == old(self).doc_base(),
            shifted(doc, old(self).doc_base(), score) is None ==> r is Err && r->Err_0
                == Error::IllegalArgument,
            shifted(doc, old(self).doc_base(), score) is Some ==> r is Ok || r->Err_0
                == Error::ChannelFailure,
    {
        match Self::outgoing(doc, self.doc_base, score) {
            Some(message) => Self::delivered(send_doc(&self.channel, message)),
            None => Err(Error::IllegalArgument),
        }
    }
}

/// A ranked list without its last document is ranked.
pub proof fn lemma_drop_last_ranked(s: Seq<ScoreDoc>)
    requires
        ranked(s),
        s.len() > 0,
    ensures
        ranked(s.drop_last()),
{
    let t = s.drop_last();
    assert forall|i: int, j: int| 0 <= i < j < t.len() implies t[i].score >= t[j].score by {
        assert(t[i] == s[i] && t[j] == s[j]);
    }
}

} // verus!
