use vstd::prelude::*;

use crate::registry::SessionRegistry;

verus! {

/// The most bytes that one read of a session's output takes.
pub const READ_CHUNK_SIZE: usize = 8192;

/// What one read of a session's output stream came back with.
pub enum ReadOutcome {
    /// The read put this many bytes at the start of the buffer; zero means
    /// the stream has ended.
    Data(usize),
    /// The read failed.
    Failed,
}

/// A chunk of raw output from one session.
#[derive(Debug)]
pub struct PtyOutputEvent {
    pub id: String,
    pub data: Vec<u8>,
}

/// The end of one session; the exit code is never known.
#[derive(Debug)]
pub struct AgentExitedEvent {
    pub id: String,
    pub code: Option<i32>,
}

/// What the forwarding loop does after a read.
pub enum ForwardStep {
    /// Push this event to the session's consumers and read again.
    Emit(PtyOutputEvent),
    /// Leave the loop: the session is over.
    Stop,
}

/// All chunks laid end to end, in order.
pub open spec fn concat_chunks(chunks: Seq<Seq<u8>>) -> Seq<u8>
    decreases chunks.len(),
{
    if chunks.len() == 0 {
        Seq::empty()
    } else {
        concat_chunks(chunks.drop_last()) + chunks.last()
    }
}

/// The event that reports the end of session `id`.
pub fn exited_event(id: &String) -> (r: AgentExitedEvent)
    ensures
        r.id@ == id@,
        r.code is None,
{
    AgentExitedEvent { id: id.clone(), code: None }
}

/// The decisions of one session's output-forwarding loop.
///
/// It remembers, as ghost state, every byte read from the stream and the data
/// of every event it asked to emit.
pub struct OutputForwarder {
    id: String,
    stopped: bool,
    consumed: Ghost<Seq<u8>>,
    emitted: Ghost<Seq<Seq<u8>>>,
}

impl OutputForwarder {
    /// The session whose output this forwards.
    pub closed spec fn session_id(&self) -> Seq<char> {
        self.id@
    }

    /// Whether the loop has been told to stop.
    pub closed spec fn has_stopped(&self) -> bool {
        self.stopped
    }

    /// Every byte read from the stream so far, in order.
    pub closed spec fn consumed(&self) -> Seq<u8> {
        self.consumed@
    }

    /// The data of every output event asked for so far, in order.
    pub closed spec fn emitted(&self) -> Seq<Seq<u8>> {
        self.emitted@
    }

    /// The emitted events carry exactly the bytes read, none of them empty.
    pub closed spec fn wf(&self) -> bool {
        &&& concat_chunks(self.emitted@) == self.consumed@
        &&& forall|k: int| 0 <= k < self.emitted@.len() ==> #[trigger] self.emitted@[k].len() > 0
    }

    /// A forwarder for session `id`, before its first read.
    pub fn new(id: String) -> (r: OutputForwarder)
        ensures
            r.wf(),
            r.session_id() == id@,
            !r.has_stopped(),
            r.consumed() == Seq::<u8>::empty(),
            r.emitted() == Seq::<Seq<u8>>::empty(),
    {
        OutputForwarder { id, stopped: false, consumed: Ghost(Seq::empty()), emitted: Ghost(Seq::empty()) }
    }

    /// The id of the session whose output this forwards.
    pub fn id(&self) -> (r: &String)
        ensures
            r@ == self.session_id(),
    {
        &self.id
    }

    /// Whether the loop has been told to stop.
    pub fn is_stopped(&self) -> (r: bool)
        ensures
            r == self.has_stopped(),
    {
        self.stopped
    }

    /// Decides what follows one read into `buffer`: bytes read become one
    /// output event holding exactly them; end of stream or a failed read stops
    /// the loop.
    pub fn on_read(&mut self, outcome: ReadOutcome, buffer: &[u8]) -> (r: ForwardStep)
        requires
            old(self).wf(),
            !old(self).has_stopped(),
            buffer@.len() <= READ_CHUNK_SIZE,
            outcome matches ReadOutcome::Data(n) ==> n <= buffer@.len(),
        ensures
            final(self).wf(),
            final(self).session_id() == old(self).session_id(),
            match outcome {
                ReadOutcome::Data(n) if n > 0 => {
                    &&& r matches ForwardStep::Emit(ev)
                    &&& ev.id@ == old(self).session_id()
                    &&& ev.data@ == buffer@.subrange(0, n as int)
                    &&& 1 <= ev.data@.len() <= READ_CHUNK_SIZE
                    &&& !final(self).has_stopped()
                    &&& final(self).consumed() == old(self).consumed() + buffer@.subrange(0, n as int)
                    &&& final(self).emitted() == old(self).emitted().push(buffer@.subrange(0, n as int))
                },
                _ => {
                    &&& r is Stop
                    &&& final(self).has_stopped()
                    &&& final(self).consumed() == old(self).consumed()
                    &&& final(self).emitted() == old(self).emitted()
                },
            },
    {
        match outcome {
            ReadOutcome::Data(n) => {
                if n == 0 {
                    self.stopped = true;
                    ForwardStep::Stop
                } else {
                    let mut data: Vec<u8> = Vec::with_capacity(n);
                    let mut i: usize = 0;
                    while i < n
                        invariant
                            n <= buffer@.len(),
                            i <= n,
                            data@ == buffer@.subrange(0, i as int),
                        decreases n - i,
                    {
                        data.push(buffer[i]);
                        i = i + 1;
                        assert(data@ =~= buffer@.subrange(0, i as int));
                    }
                    let ghost chunk = data@;
                    let ghost old_emitted = self.emitted@;
                    self.consumed = Ghost(self.consumed@ + chunk);
                    self.emitted = Ghost(old_emitted.push(chunk));
                    proof {
                        assert(self.emitted@.drop_last() =~= old_emitted);
                    }
                    ForwardStep::Emit(PtyOutputEvent { id: self.id.clone(), data })
                }
            },
            ReadOutcome::Failed => {
                self.stopped = true;
                ForwardStep::Stop
            },
        }
    }

    /// Closes the session once the loop has stopped: drops it from the
    /// registry unless a kill already did, and gives the event that reports
    /// its end.
    pub fn finish<H>(&self, registry: &mut SessionRegistry<H>) -> (r: AgentExitedEvent)
        requires
            old(registry).wf(),
        ensures
            final(registry).wf(),
            final(registry)@ == old(registry)@.remove(self.session_id()),
            r.id@ == self.session_id(),
            r.code is None,
    {
        let _ = registry.take(&self.id);
        exited_event(&self.id)
    }
}

/// The output events of a session carry, end to end, exactly the bytes read
/// from its stream, in the order read, whatever sizes the reads had; no event
/// is empty.
pub proof fn lemma_output_in_order(f: &OutputForwarder)
    requires
        f.wf(),
    ensures
        concat_chunks(f.emitted()) == f.consumed(),
        forall|k: int| 0 <= k < f.emitted().len() ==> #[trigger] f.emitted()[k].len() > 0,
{
}

} // verus!
