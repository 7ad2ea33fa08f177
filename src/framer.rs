use vstd::prelude::*;

verus! {

/// A byte that ends a record and is trimmed from its tail: NUL, CR or LF.
pub open spec fn is_terminator(b: u8) -> bool {
    b == 0u8 || b == 13u8 || b == 10u8
}

pub open spec fn nul_free(s: Seq<u8>) -> bool {
    forall|i: int| 0 <= i < s.len() ==> s[i] != 0u8
}

/// `s` with its trailing run of NUL, CR and LF bytes removed.
pub open spec fn strip_end(s: Seq<u8>) -> Seq<u8>
    decreases s.len(),
{
    if s.len() > 0 && is_terminator(s.last()) {
        strip_end(s.drop_last())
    } else {
        s
    }
}

/// A well-formed record: no NUL inside, and no terminator at its end.
pub open spec fn is_record(r: Seq<u8>) -> bool {
    nul_free(r) && (r.len() == 0 || !is_terminator(r.last()))
}

/// What one segment contributes: nothing when no byte came before its NUL.
pub open spec fn emit(cur: Seq<u8>) -> Seq<Seq<u8>> {
    if cur.len() == 0 {
        Seq::empty()
    } else {
        seq![strip_end(cur)]
    }
}

/// The records of `rest`, given that the bytes `cur` of an unfinished segment
/// came before it and that the stream ends after `rest`.
pub open spec fn records_from(cur: Seq<u8>, rest: Seq<u8>) -> Seq<Seq<u8>>
    decreases rest.len(),
{
    if rest.len() == 0 {
        emit(cur)
    } else if rest[0] == 0u8 {
        emit(cur) + records_from(Seq::empty(), rest.drop_first())
    } else {
        records_from(cur.push(rest[0]), rest.drop_first())
    }
}

/// The records of a whole stream that ends after `s`.
pub open spec fn records_of(s: Seq<u8>) -> Seq<Seq<u8>> {
    records_from(Seq::empty(), s)
}

/// `s` holds a complete record: a NUL right after a byte that is not NUL.
pub open spec fn has_complete(s: Seq<u8>) -> bool {
    exists|j: int| 0 < j < s.len() && #[trigger] s[j] == 0u8 && s[j - 1] != 0u8
}

/// A point where a stream may be cut without cutting a segment.
pub open spec fn at_boundary(a: Seq<u8>) -> bool {
    a.len() == 0 || a.last() == 0u8
}

/// The stream made of each record followed by a NUL.
pub open spec fn join_nul(rs: Seq<Seq<u8>>) -> Seq<u8>
    decreases rs.len(),
{
    if rs.len() == 0 {
        Seq::empty()
    } else {
        join_nul(rs.drop_last()) + rs.last() + seq![0u8]
    }
}

pub proof fn lemma_strip_end_is_record(s: Seq<u8>)
    requires
        nul_free(s),
    ensures
        is_record(strip_end(s)),
        strip_end(s).len() <= s.len(),
        strip_end(s) == s.take(strip_end(s).len() as int),
    decreases s.len(),
{
    if s.len() > 0 && is_terminator(s.last()) {
        lemma_strip_end_is_record(s.drop_last());
    } else {
        assert(s.take(s.len() as int) =~= s);
    }
}

proof fn lemma_emit_records(cur: Seq<u8>)
    requires
        nul_free(cur),
    ensures
        forall|i: int| 0 <= i < emit(cur).len() ==> is_record(#[trigger] emit(cur)[i]),
{
    lemma_strip_end_is_record(cur);
}

proof fn lemma_records_from_are_records(cur: Seq<u8>, rest: Seq<u8>)
    requires
        nul_free(cur),
    ensures
        forall|i: int|
            0 <= i < records_from(cur, rest).len() ==> is_record(
                #[trigger] records_from(cur, rest)[i],
            ),
    decreases rest.len(),
{
    lemma_emit_records(cur);
    if rest.len() == 0 {
    } else if rest[0] == 0u8 {
        lemma_records_from_are_records(Seq::empty(), rest.drop_first());
        let a = emit(cur);
        let b = records_from(Seq::<u8>::empty(), rest.drop_first());
        assert forall|i: int| 0 <= i < (a + b).len() implies is_record(#[trigger] (a + b)[i]) by {
            if i < a.len() {
                assert((a + b)[i] == a[i]);
            } else {
                assert((a + b)[i] == b[i - a.len()]);
            }
        }
        assert(records_from(cur, rest) == a + b);
    } else {
        assert(nul_free(cur.push(rest[0])));
        lemma_records_from_are_records(cur.push(rest[0]), rest.drop_first());
        assert(records_from(cur, rest) == records_from(cur.push(rest[0]), rest.drop_first()));
    }
}

/// Every record of every stream holds no NUL and ends in none of NUL, CR, LF.
pub proof fn lemma_records_well_formed(s: Seq<u8>)
    ensures
        forall|i: int| 0 <= i < records_of(s).len() ==> is_record(#[trigger] records_of(s)[i]),
{
    lemma_records_from_are_records(Seq::empty(), s);
}

/// Bytes free of NUL extend the unfinished segment.
proof fn lemma_segment(cur: Seq<u8>, q: Seq<u8>, rest: Seq<u8>)
    requires
        nul_free(q),
    ensures
        records_from(cur, q + rest) == records_from(cur + q, rest),
    decreases q.len(),
{
    if q.len() == 0 {
        assert(q + rest =~= rest);
        assert(cur + q =~= cur);
    } else {
        assert((q + rest)[0] == q[0]);
        assert((q + rest).drop_first() =~= q.drop_first() + rest);
        lemma_segment(cur.push(q[0]), q.drop_first(), rest);
        assert(cur.push(q[0]) + q.drop_first() =~= cur + q);
    }
}

/// Cutting the stream at a boundary splits its records.
proof fn lemma_split_from(cur: Seq<u8>, a: Seq<u8>, b: Seq<u8>)
    requires
        a.len() > 0,
        a.last() == 0u8,
    ensures
        records_from(cur, a + b) == records_from(cur, a) + records_of(b),
    decreases a.len(),
{
    assert((a + b)[0] == a[0]);
    assert((a + b).drop_first() =~= a.drop_first() + b);
    if a[0] == 0u8 {
        if a.len() == 1 {
            assert(a.drop_first() + b =~= b);
            assert(records_from(Seq::empty(), a.drop_first()) =~= Seq::empty());
            assert(records_from(cur, a) =~= emit(cur));
        } else {
            lemma_split_from(Seq::empty(), a.drop_first(), b);
            assert(emit(cur) + (records_from(Seq::empty(), a.drop_first()) + records_of(b))
                =~= (emit(cur) + records_from(Seq::empty(), a.drop_first())) + records_of(b));
        }
    } else {
        lemma_split_from(cur.push(a[0]), a.drop_first(), b);
    }
}

/// The records of two streams joined at a boundary are the records of each.
pub proof fn lemma_records_concat(a: Seq<u8>, b: Seq<u8>)
    requires
        at_boundary(a),
    ensures
        records_of(a + b) == records_of(a) + records_of(b),
{
    if a.len() == 0 {
        assert(a + b =~= b);
        assert(records_of(a) =~= Seq::empty());
        assert(records_of(a) + records_of(b) =~= records_of(b));
    } else {
        lemma_split_from(Seq::empty(), a, b);
    }
}

/// One segment: leading NULs, then NUL-free bytes `q`, then one NUL.
proof fn lemma_one_segment(z: Seq<u8>, q: Seq<u8>, rest: Seq<u8>)
    requires
        forall|i: int| 0 <= i < z.len() ==> z[i] == 0u8,
        nul_free(q),
    ensures
        records_of(z + q + seq![0u8] + rest) == emit(q) + records_of(rest),
        records_of(z + q) == emit(q),
    decreases z.len(),
{
    if z.len() == 0 {
        assert(z + q + seq![0u8] + rest =~= q + (seq![0u8] + rest));
        lemma_segment(Seq::empty(), q, seq![0u8] + rest);
        assert(Seq::<u8>::empty() + q =~= q);
        assert((seq![0u8] + rest).drop_first() =~= rest);
        assert(z + q =~= q + Seq::<u8>::empty());
        lemma_segment(Seq::empty(), q, Seq::empty());
    } else {
        let s = z + q + seq![0u8] + rest;
        assert(s[0] == 0u8);
        assert(s.drop_first() =~= z.drop_first() + q + seq![0u8] + rest);
        assert((z + q)[0] == 0u8);
        assert((z + q).drop_first() =~= z.drop_first() + q);
        assert(emit(Seq::<u8>::empty()) =~= Seq::empty());
        lemma_one_segment(z.drop_first(), q, rest);
        assert(records_of(s) =~= records_of(s.drop_first()));
        assert(records_of(z + q) =~= records_of((z + q).drop_first()));
    }
}

proof fn lemma_join_nul_at_boundary(rs: Seq<Seq<u8>>)
    ensures
        at_boundary(join_nul(rs)),
{
    if rs.len() > 0 {
        let j = join_nul(rs);
        assert(j.last() == 0u8);
    }
}

/// Reframing records joined with NULs gives each record back, trimmed.
pub proof fn lemma_reframe(rs: Seq<Seq<u8>>)
    requires
        forall|i: int| 0 <= i < rs.len() ==> (#[trigger] rs[i]).len() > 0 && nul_free(rs[i]),
    ensures
        records_of(join_nul(rs)) == rs.map_values(|r: Seq<u8>| strip_end(r)),
    decreases rs.len(),
{
    if rs.len() == 0 {
        assert(records_of(join_nul(rs)) =~= rs.map_values(|r: Seq<u8>| strip_end(r)));
    } else {
        let init = rs.drop_last();
        let last = rs.last();
        assert(rs[rs.len() - 1] == last);
        assert forall|i: int| 0 <= i < init.len() implies (#[trigger] init[i]).len() > 0 && nul_free(
            init[i],
        ) by {
            assert(init[i] == rs[i]);
        }
        lemma_reframe(init);
        lemma_join_nul_at_boundary(init);
        assert(join_nul(init) + last + seq![0u8] =~= join_nul(init) + (last + seq![0u8]));
        lemma_records_concat(join_nul(init), last + seq![0u8]);
        lemma_one_segment(Seq::empty(), last, Seq::empty());
        assert(Seq::<u8>::empty() + last + seq![0u8] + Seq::<u8>::empty() =~= last + seq![0u8]);
        assert(records_of(Seq::<u8>::empty()) =~= Seq::empty());
        assert(records_of(join_nul(rs)) =~= rs.map_values(|r: Seq<u8>| strip_end(r)));
    }
}

/// A NUL with no byte before it adds no record: framing goes on past it.
pub proof fn lemma_empty_segment_ignored(a: Seq<u8>, b: Seq<u8>)
    requires
        at_boundary(a),
    ensures
        records_of(a + seq![0u8] + b) == records_of(a + b),
{
    assert(a + seq![0u8] + b =~= a + (seq![0u8] + b));
    lemma_records_concat(a, seq![0u8] + b);
    lemma_records_concat(a, b);
    assert((seq![0u8] + b)[0] == 0u8);
    assert((seq![0u8] + b).drop_first() =~= b);
    assert(emit(Seq::<u8>::empty()) =~= Seq::empty());
    assert(records_of(seq![0u8] + b) =~= records_of(b));
}

/// Bytes pending when the stream ends make one final record.
pub proof fn lemma_final_record(a: Seq<u8>, q: Seq<u8>)
    requires
        at_boundary(a),
        q.len() > 0,
        nul_free(q),
    ensures
        records_of(a + q) == records_of(a) + seq![strip_end(q)],
{
    lemma_records_concat(a, q);
    lemma_one_segment(Seq::empty(), q, Seq::empty());
    assert(Seq::<u8>::empty() + q =~= q);
}

/// The bytes of `v` from `from` up to `to`.
fn copy_range(v: &Vec<u8>, from: usize, to: usize) -> (r: Vec<u8>)
    requires
        from <= to <= v@.len(),
    ensures
        r@ == v@.subrange(from as int, to as int),
{
    let mut r: Vec<u8> = Vec::new();
    let mut i: usize = from;
    while i < to
        invariant
            from <= i <= to <= v@.len(),
            r@ == v@.subrange(from as int, i as int),
        decreases to - i,
    {
        r.push(v[i]);
        i = i + 1;
        assert(r@ =~= v@.subrange(from as int, i as int));
    }
    r
}

fn is_terminator_byte(b: u8) -> (r: bool)
    ensures
        r == is_terminator(b),
{
    b == 0u8 || b == 13u8 || b == 10u8
}

/// The bytes of `v` from `from` up to `to`, trimmed of trailing terminators.
fn strip_range(v: &Vec<u8>, from: usize, to: usize) -> (r: Vec<u8>)
    requires
        from <= to <= v@.len(),
    ensures
        r@ == strip_end(v@.subrange(from as int, to as int)),
{
    let mut end: usize = to;
    while end > from && is_terminator_byte(v[end - 1])
        invariant
            from <= end <= to <= v@.len(),
            strip_end(v@.subrange(from as int, to as int)) == strip_end(
                v@.subrange(from as int, end as int),
            ),
        decreases end,
    {
        let ghost s = v@.subrange(from as int, end as int);
        assert(s.drop_last() =~= v@.subrange(from as int, end - 1));
        end = end - 1;
    }
    copy_range(v, from, end)
}

/// Splits a byte stream into records at NUL bytes, as it is read.
pub struct LineFramer {
    pending: Vec<u8>,
}

impl View for LineFramer {
    type V = Seq<u8>;

    /// The bytes read and not yet framed.
    closed spec fn view(&self) -> Seq<u8> {
        self.pending@
    }
}

impl LineFramer {
    pub fn new() -> (r: LineFramer)
        ensures
            r@ == Seq::<u8>::empty(),
    {
        LineFramer { pending: Vec::new() }
    }

    /// Appends bytes just read from the stream.
    pub fn feed(&mut self, chunk: &[u8])
        ensures
            final(self)@ == old(self)@ + chunk@,
    {
        let mut i: usize = 0;
        while i < chunk.len()
            invariant
                0 <= i <= chunk@.len(),
                self.pending@ == old(self)@ + chunk@.subrange(0, i as int),
            decreases chunk@.len() - i,
        {
            self.pending.push(chunk[i]);
            i = i + 1;
            assert(self.pending@ =~= old(self)@ + chunk@.subrange(0, i as int));
        }
        assert(chunk@.subrange(0, chunk@.len() as int) =~= chunk@);
    }

    pub fn pending_len(&self) -> (r: usize)
        ensures
            r == self@.len(),
    {
        self.pending.len()
    }

    /// Takes the next complete record, one whose NUL has been read.
    /// Segments with no byte before their NUL are passed over.
    pub fn next_record(&mut self) -> (r: Option<Vec<u8>>)
        ensures
            r is None <==> !has_complete(old(self)@),
            r is None ==> final(self)@ == old(self)@,
            r matches Some(x) ==> {
                &&& records_of(old(self)@) == seq![x@] + records_of(final(self)@)
                &&& is_record(x@)
                &&& final(self)@.len() < old(self)@.len()
                &&& at_boundary(old(self)@.take(old(self)@.len() - final(self)@.len()))
                &&& final(self)@ == old(self)@.skip(old(self)@.len() - final(self)@.len())
            },
    {
        let n = self.pending.len();
        let mut start: usize = 0;
        while start < n && self.pending[start] == 0u8
            invariant
                start <= n == self.pending@.len(),
                forall|i: int| 0 <= i < start ==> self.pending@[i] == 0u8,
            decreases n - start,
        {
            start = start + 1;
        }
        let mut k: usize = start;
        while k < n && self.pending[k] != 0u8
            invariant
                start <= k <= n == self.pending@.len(),
                forall|i: int| start <= i < k ==> self.pending@[i] != 0u8,
            decreases n - k,
        {
            k = k + 1;
        }
        let ghost p = self.pending@;
        if k == n {
            assert(!has_complete(p)) by {
                if has_complete(p) {
                    let j = choose|j: int| 0 < j < p.len() && #[trigger] p[j] == 0u8 && p[j - 1] != 0u8;
                    assert(j - 1 >= start);
                }
            }
            return None;
        }
        let rec = strip_range(&self.pending, start, k);
        let rest = copy_range(&self.pending, k + 1, n);
        proof {
            let z = p.subrange(0, start as int);
            let q = p.subrange(start as int, k as int);
            assert(p =~= z + q + seq![0u8] + rest@);
            assert(has_complete(p)) by {
                assert(0 < k && p[k as int] == 0u8 && p[k - 1] != 0u8);
            }
            lemma_one_segment(z, q, rest@);
            lemma_strip_end_is_record(q);
            assert(p.take(p.len() - rest@.len()) =~= p.subrange(0, k + 1));
            assert(p.skip(p.len() - rest@.len()) =~= rest@);
        }
        self.pending = rest;
        Some(rec)
    }

    /// Takes the next record once the stream has ended: a complete one if
    /// there is one, else what is pending, which is then dropped.
    pub fn finish(&mut self) -> (r: Option<Vec<u8>>)
        ensures
            r is None <==> records_of(old(self)@).len() == 0,
            r is None ==> final(self)@.len() == 0,
            r matches Some(x) ==> {
                &&& records_of(old(self)@) == seq![x@] + records_of(final(self)@)
                &&& is_record(x@)
                &&& final(self)@.len() < old(self)@.len()
            },
    {
        let ghost p = self.pending@;
        let first = self.next_record();
        if first.is_some() {
            return first;
        }
        let n = self.pending.len();
        let mut start: usize = 0;
        while start < n && self.pending[start] == 0u8
            invariant
                start <= n == self.pending@.len(),
                self.pending@ == p,
                forall|i: int| 0 <= i < start ==> p[i] == 0u8,
            decreases n - start,
        {
            start = start + 1;
        }
        let mut k: usize = start;
        while k < n && self.pending[k] != 0u8
            invariant
                start <= k <= n == self.pending@.len(),
                self.pending@ == p,
                forall|i: int| start <= i < k ==> p[i] != 0u8,
            decreases n - k,
        {
            k = k + 1;
        }
        if k < n {
            assert(p[k as int] == 0u8 && k > start && p[k - 1] != 0u8);
            assert(has_complete(p));
        }
        let ghost z = p.subrange(0, start as int);
        let ghost q = p.subrange(start as int, n as int);
        proof {
            assert(nul_free(q));
            assert(p =~= z + q);
            lemma_one_segment(z, q, Seq::empty());
        }
        if start == n {
            self.pending = Vec::new();
            proof {
                assert(q.len() == 0);
                assert(emit(q) =~= Seq::empty());
            }
            return None;
        }
        let rec = strip_range(&self.pending, start, n);
        proof {
            lemma_strip_end_is_record(q);
        }
        self.pending = Vec::new();
        proof {
            assert(records_of(self.pending@) =~= Seq::empty());
            assert(seq![rec@] + records_of(self.pending@) =~= seq![rec@]);
        }
        Some(rec)
    }
}

/// The text of a record's bytes, invalid UTF-8 replaced.
pub uninterp spec fn lossy_text(b: Seq<u8>) -> Seq<char>;

/// Relies on `String::from_utf8_lossy`: the text depends on the bytes alone.
#[verifier::external_body]
fn decode_lossy(b: &[u8]) -> (r: String)
    ensures
        r@ == lossy_text(b@),
{
    String::from_utf8_lossy(b).into_owned()
}

impl LineFramer {
    /// `next_record`, as text.
    pub fn next_text(&mut self) -> (r: Option<String>)
        ensures
            r is None <==> !has_complete(old(self)@),
            r is None ==> final(self)@ == old(self)@,
            r matches Some(t) ==> {
                &&& records_of(old(self)@).len() > 0
                &&& t@ == lossy_text(records_of(old(self)@)[0])
                &&& records_of(final(self)@) == records_of(old(self)@).drop_first()
            },
    {
        match self.next_record() {
            Some(x) => {
                assert(records_of(final(self)@) =~= records_of(old(self)@).drop_first());
                Some(decode_lossy(x.as_slice()))
            },
            None => None,
        }
    }

    /// `finish`, as text.
    pub fn finish_text(&mut self) -> (r: Option<String>)
        ensures
            r is None <==> records_of(old(self)@).len() == 0,
            r is None ==> final(self)@.len() == 0,
            r matches Some(t) ==> {
                &&& records_of(old(self)@).len() > 0
                &&& t@ == lossy_text(records_of(old(self)@)[0])
                &&& records_of(final(self)@) == records_of(old(self)@).drop_first()
            },
    {
        match self.finish() {
            Some(x) => {
                assert(records_of(final(self)@) =~= records_of(old(self)@).drop_first());
                Some(decode_lossy(x.as_slice()))
            },
            None => None,
        }
    }
}

/// What one framed read of a console stream gave.
#[derive(Debug, Clone)]
pub enum ReadEvent {
    Record(String),
    Closed,
    Timeout,
    IoError,
}

/// What one read of the stream gave.
#[derive(Debug, Clone)]
pub enum ReadOutcome {
    Bytes(Vec<u8>),
    End,
    TimedOut,
    Failed,
}

impl LineFramer {
    /// Takes the outcome of one read and says what the reader sees, or
    /// `None` when no record is complete yet and reading goes on.
    pub fn on_read(&mut self, outcome: ReadOutcome) -> (r: Option<ReadEvent>)
        ensures
            match outcome {
                ReadOutcome::Bytes(b) => {
                    let p = old(self)@ + b@;
                    &&& r is None <==> !has_complete(p)
                    &&& r is None ==> final(self)@ == p
                    &&& r matches Some(e) ==> e matches ReadEvent::Record(t) && t@ == lossy_text(
                        records_of(p)[0],
                    ) && records_of(final(self)@) == records_of(p).drop_first() && records_of(
                        p,
                    ).len() > 0
                },
                ReadOutcome::End => if records_of(old(self)@).len() == 0 {
                    r == Some(ReadEvent::Closed) && final(self)@.len() == 0
                } else {
                    r matches Some(e) && e matches ReadEvent::Record(t) && t@ == lossy_text(
                        records_of(old(self)@)[0],
                    ) && records_of(final(self)@) == records_of(old(self)@).drop_first()
                },
                ReadOutcome::TimedOut => r == Some(ReadEvent::Timeout) && final(self)@ == old(
                    self,
                )@,
                ReadOutcome::Failed => r == Some(ReadEvent::IoError) && final(self)@ == old(
                    self,
                )@,
            },
    {
        match outcome {
            ReadOutcome::Bytes(b) => {
                self.feed(b.as_slice());
                match self.next_text() {
                    Some(t) => Some(ReadEvent::Record(t)),
                    None => None,
                }
            },
            ReadOutcome::End => match self.finish_text() {
                Some(t) => Some(ReadEvent::Record(t)),
                None => Some(ReadEvent::Closed),
            },
            ReadOutcome::TimedOut => Some(ReadEvent::Timeout),
            ReadOutcome::Failed => Some(ReadEvent::IoError),
        }
    }
}

/// The records of a whole stream, in order.
pub fn frame_all(bytes: &[u8]) -> (r: Vec<Vec<u8>>)
    ensures
        r@.map_values(|v: Vec<u8>| v@) == records_of(bytes@),
{
    let mut f = LineFramer::new();
    f.feed(bytes);
    assert(Seq::<u8>::empty() + bytes@ =~= bytes@);
    let mut out: Vec<Vec<u8>> = Vec::new();
    loop
        invariant
            records_of(bytes@) == out@.map_values(|v: Vec<u8>| v@) + records_of(f@),
        decreases f@.len(),
    {
        let ghost before = f@;
        match f.finish() {
            Some(x) => {
                let ghost o = out@.map_values(|v: Vec<u8>| v@);
                out.push(x);
                assert(out@.map_values(|v: Vec<u8>| v@) =~= o.push(x@));
                assert(o + records_of(before) =~= o.push(x@) + records_of(f@));
            },
            None => {
                assert(records_of(before) =~= Seq::empty());
                assert(out@.map_values(|v: Vec<u8>| v@) + records_of(before) =~= out@.map_values(
                    |v: Vec<u8>| v@,
                ));
                return out;
            },
        }
    }
}

} // verus!
