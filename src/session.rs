use vstd::prelude::*;
use crate::error::ConsoleError;
use crate::framer::ReadEvent;

verus! {

/// Gathers the records that answer one command, until the read deadline
/// passes or the stream fails. The deadline is the end of a reply.
pub struct ReplyCollector {
    records: Vec<String>,
    finished: bool,
    dead: bool,
}

/// The records gathered, whether the reply has ended, and whether the session
/// died, after the events `events` from the start of a reply. Events that
/// come after the one that ends the reply change nothing.
pub open spec fn collect_spec(events: Seq<ReadEvent>) -> (Seq<Seq<char>>, bool, bool)
    decreases events.len(),
{
    if events.len() == 0 {
        (Seq::empty(), false, false)
    } else {
        let (texts, finished, dead) = collect_spec(events.drop_last());
        if finished {
            (texts, finished, dead)
        } else {
            match events.last() {
                ReadEvent::Record(t) => (texts.push(t@), false, dead),
                ReadEvent::Timeout => (texts, true, dead),
                _ => (texts, true, true),
            }
        }
    }
}

impl ReplyCollector {
    pub closed spec fn texts(&self) -> Seq<Seq<char>> {
        self.records@.map_values(|s: String| s@)
    }

    pub closed spec fn spec_finished(&self) -> bool {
        self.finished
    }

    pub closed spec fn spec_dead(&self) -> bool {
        self.dead
    }

    pub fn new() -> (r: ReplyCollector)
        ensures
            r.texts() == Seq::<Seq<char>>::empty(),
            !r.spec_finished(),
            !r.spec_dead(),
    {
        let r = ReplyCollector { records: Vec::new(), finished: false, dead: false };
        assert(r.texts() =~= Seq::<Seq<char>>::empty());
        r
    }

    /// Takes the outcome of one framed read. A record is kept; a timeout
    /// ends the reply; a closed stream or a failed read ends it and marks
    /// the session dead.
    pub fn on_event(&mut self, e: ReadEvent)
        requires
            !old(self).spec_finished(),
        ensures
            match e {
                ReadEvent::Record(t) => final(self).texts() == old(self).texts().push(t@)
                    && !final(self).spec_finished() && final(self).spec_dead() == old(
                    self,
                ).spec_dead(),
                ReadEvent::Timeout => final(self).texts() == old(self).texts()
                    && final(self).spec_finished() && final(self).spec_dead() == old(
                    self,
                ).spec_dead(),
                _ => final(self).texts() == old(self).texts() && final(self).spec_finished()
                    && final(self).spec_dead(),
            },
    {
        match e {
            ReadEvent::Record(t) => {
                let ghost t_view = t@;
                self.records.push(t);
                assert(self.texts() =~= old(self).texts().push(t_view));
            },
            ReadEvent::Timeout => {
                self.finished = true;
            },
            ReadEvent::Closed => {
                self.finished = true;
                self.dead = true;
            },
            ReadEvent::IoError => {
                self.finished = true;
                self.dead = true;
            },
        }
    }

    /// The command could not be written: the reply ends, the session is dead.
    pub fn write_failed(&mut self)
        ensures
            final(self).texts() == old(self).texts(),
            final(self).spec_finished(),
            final(self).spec_dead(),
    {
        self.finished = true;
        self.dead = true;
    }

    pub fn is_finished(&self) -> (r: bool)
        ensures
            r == self.spec_finished(),
    {
        self.finished
    }

    pub fn is_dead(&self) -> (r: bool)
        ensures
            r == self.spec_dead(),
    {
        self.dead
    }

    pub fn into_records(self) -> (r: Vec<String>)
        ensures
            r@.map_values(|s: String| s@) == self.texts(),
    {
        self.records
    }
}

/// Runs a reply over the outcomes of successive reads, up to the one that
/// ends it; events after that one are not read.
pub fn collect_reply(events: Vec<ReadEvent>) -> (r: (Vec<String>, bool))
    ensures
        ({
            let (texts, _, dead) = collect_spec(events@);
            r.0@.map_values(|s: String| s@) == texts && r.1 == dead
        }),
{
    let mut c = ReplyCollector::new();
    let mut events = events;
    let ghost all = events@;
    let mut n: usize = 0;
    let total = events.len();
    assert(all.len() == total);
    while events.len() > 0
        invariant
            0 <= n <= all.len() <= usize::MAX,
            events@ == all.skip(n as int),
            collect_spec(all.take(n as int)) == (c.texts(), c.spec_finished(), c.spec_dead()),
        decreases events@.len(),
    {
        assert(n < all.len());
        let e = events.remove(0);
        assert(all.take(n + 1).drop_last() =~= all.take(n as int));
        assert(all.take(n + 1).last() == e);
        if !c.is_finished() {
            c.on_event(e);
        }
        n = n + 1;
        assert(events@ =~= all.skip(n as int));
    }
    assert(all.take(n as int) =~= all);
    let dead = c.is_dead();
    (c.into_records(), dead)
}

/// A command on a session that has died fails fast.
pub fn check_live(id: usize, dead: bool) -> (r: Result<(), ConsoleError>)
    ensures
        r is Ok <==> !dead,
        r matches Err(e) ==> e == ConsoleError::SessionDead(id),
{
    if dead {
        Err(ConsoleError::SessionDead(id))
    } else {
        Ok(())
    }
}

/// A remote that stays silent through the first read deadline yields an
/// empty reply, and the session stays alive.
pub proof fn lemma_silent_reply(rest: Seq<ReadEvent>)
    ensures
        collect_spec(seq![ReadEvent::Timeout] + rest) == (Seq::<Seq<char>>::empty(), true, false),
    decreases rest.len(),
{
    let all = seq![ReadEvent::Timeout] + rest;
    if rest.len() == 0 {
        assert(all.drop_last() =~= Seq::<ReadEvent>::empty());
        assert(all.last() == ReadEvent::Timeout);
        assert(collect_spec(all.drop_last()) == (Seq::<Seq<char>>::empty(), false, false));
    } else {
        assert(all.drop_last() =~= seq![ReadEvent::Timeout] + rest.drop_last());
        lemma_silent_reply(rest.drop_last());
    }
}

} // verus!
