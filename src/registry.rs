use vstd::prelude::*;
use crate::error::ConsoleError;

verus! {

/// One admitted session: its identifier, its remote address, and the
/// handle through which it is used.
pub struct Entry<S> {
    pub id: usize,
    pub addr: String,
    pub session: S,
}

/// The sessions of a process under identifiers handed out in increasing
/// order and never reused.
pub struct Registry<S> {
    next_id: usize,
    entries: Vec<Entry<S>>,
}

/// `m` holds a session under `id`.
pub open spec fn has_id<S>(m: Seq<(usize, Seq<char>, S)>, id: usize) -> bool {
    exists|i: int| 0 <= i < m.len() && (#[trigger] m[i]).0 == id
}

/// `after` is `before` with `session` admitted under `id` at address `addr`.
pub open spec fn register_step<S>(
    before: Registry<S>,
    after: Registry<S>,
    addr: Seq<char>,
    session: S,
    id: usize,
) -> bool {
    &&& id == before.spec_next_id()
    &&& after.spec_next_id() == before.spec_next_id() + 1
    &&& after.model() == before.model().push((id, addr, session))
}

/// `after` is `before` without the session under `id`, which it held.
pub open spec fn remove_step<S>(before: Registry<S>, after: Registry<S>, id: usize, session: S) -> bool {
    &&& after.spec_next_id() == before.spec_next_id()
    &&& exists|i: int|
        0 <= i < before.model().len() && (#[trigger] before.model()[i]).0 == id && session
            == before.model()[i].2 && after.model() == before.model().remove(i)
}

impl<S> Registry<S> {
    /// The identifier that the next admitted session gets.
    pub closed spec fn spec_next_id(&self) -> nat {
        self.next_id as nat
    }

    /// The sessions, as (identifier, address, handle), by identifier.
    pub closed spec fn model(&self) -> Seq<(usize, Seq<char>, S)> {
        self.entries@.map_values(|e: Entry<S>| (e.id, e.addr@, e.session))
    }

    /// The (identifier, address) pairs of the sessions, by identifier.
    pub open spec fn listing(&self) -> Seq<(usize, Seq<char>)> {
        self.model().map_values(|t: (usize, Seq<char>, S)| (t.0, t.1))
    }

    /// Identifiers rise strictly along the entries and are all taken.
    pub closed spec fn wf(&self) -> bool {
        &&& forall|i: int, j: int|
            0 <= i < j < self.entries@.len() ==> (#[trigger] self.entries@[i]).id
                < (#[trigger] self.entries@[j]).id
        &&& forall|i: int|
            0 <= i < self.entries@.len() ==> (#[trigger] self.entries@[i]).id < self.next_id
    }

    pub fn new() -> (r: Registry<S>)
        ensures
            r.wf(),
            r.spec_next_id() == 0,
            r.model() == Seq::<(usize, Seq<char>, S)>::empty(),
    {
        let r = Registry { next_id: 0, entries: Vec::new() };
        assert(r.model() =~= Seq::<(usize, Seq<char>, S)>::empty());
        r
    }

    pub fn next_id(&self) -> (r: usize)
        ensures
            r == self.spec_next_id(),
    {
        self.next_id
    }

    pub fn len(&self) -> (r: usize)
        ensures
            r == self.model().len(),
    {
        self.entries.len()
    }

    /// Admits an authenticated session under the next identifier.
    pub fn register(&mut self, addr: String, session: S) -> (r: usize)
        requires
            old(self).wf(),
            old(self).spec_next_id() < usize::MAX,
        ensures
            final(self).wf(),
            register_step(*old(self), *final(self), addr@, session, r),
    {
        let id = self.next_id;
        let ghost addr_view = addr@;
        let ghost m = self.model();
        self.entries.push(Entry { id, addr, session });
        self.next_id = id + 1;
        assert(self.model() =~= m.push((id, addr_view, session)));
        id
    }

    /// The index of the entry under `id`, if there is one.
    fn find(&self, id: usize) -> (r: Option<usize>)
        requires
            self.wf(),
        ensures
            r is None <==> !has_id(self.model(), id),
            r matches Some(i) ==> i < self.model().len() && self.model()[i as int].0 == id,
    {
        let mut i: usize = 0;
        while i < self.entries.len()
            invariant
                self.wf(),
                0 <= i <= self.entries@.len(),
                forall|k: int| 0 <= k < i ==> (#[trigger] self.entries@[k]).id != id,
            decreases self.entries@.len() - i,
        {
            if self.entries[i].id == id {
                assert(self.model()[i as int].0 == id);
                return Some(i);
            }
            i = i + 1;
        }
        assert(!has_id(self.model(), id)) by {
            if has_id(self.model(), id) {
                let k = choose|k: int| 0 <= k < self.model().len() && (#[trigger] self.model()[k]).0 == id;
                assert(self.entries@[k].id == id);
            }
        }
        None
    }

    pub fn contains(&self, id: usize) -> (r: bool)
        requires
            self.wf(),
        ensures
            r == has_id(self.model(), id),
    {
        self.find(id).is_some()
    }

    /// The handle of the session under `id`.
    pub fn get(&self, id: usize) -> (r: Result<&S, ConsoleError>)
        requires
            self.wf(),
        ensures
            r is Ok <==> has_id(self.model(), id),
            r matches Ok(s) ==> exists|i: int|
                0 <= i < self.model().len() && (#[trigger] self.model()[i]).0 == id && *s
                    == self.model()[i].2,
            r matches Err(e) ==> e == ConsoleError::NotFound(id),
    {
        match self.find(id) {
            Some(i) => Ok(&self.entries[i].session),
            None => Err(ConsoleError::NotFound(id)),
        }
    }

    /// Takes the session under `id` out; its identifier is not given again.
    pub fn remove(&mut self, id: usize) -> (r: Result<S, ConsoleError>)
        requires
            old(self).wf(),
        ensures
            final(self).wf(),
            r is Ok <==> has_id(old(self).model(), id),
            r matches Ok(s) ==> remove_step(*old(self), *final(self), id, s),
            r matches Err(e) ==> e == ConsoleError::NotFound(id) && *final(self) == *old(self),
    {
        match self.find(id) {
            Some(i) => {
                let ghost m = self.model();
                let e = self.entries.remove(i);
                assert(self.model() =~= m.remove(i as int));
                Ok(e.session)
            },
            None => Err(ConsoleError::NotFound(id)),
        }
    }

    /// The (identifier, address) pairs, by identifier.
    pub fn list(&self) -> (r: Vec<(usize, String)>)
        requires
            self.wf(),
        ensures
            r@.map_values(|p: (usize, String)| (p.0, p.1@)) == self.listing(),
            forall|i: int, j: int| 0 <= i < j < r@.len() ==> (#[trigger] r@[i]).0 < (#[trigger] r@[j]).0,
    {
        let mut r: Vec<(usize, String)> = Vec::new();
        let mut i: usize = 0;
        while i < self.entries.len()
            invariant
                self.wf(),
                0 <= i <= self.entries@.len(),
                r@.map_values(|p: (usize, String)| (p.0, p.1@)) == self.listing().take(i as int),
                r@.len() == i,
                forall|k: int| 0 <= k < i ==> (#[trigger] r@[k]).0 == self.entries@[k].id,
            decreases self.entries@.len() - i,
        {
            let e = &self.entries[i];
            r.push((e.id, e.addr.clone()));
            assert(r@.map_values(|p: (usize, String)| (p.0, p.1@)) =~= self.listing().take(i + 1));
            i = i + 1;
        }
        assert(self.listing().take(i as int) =~= self.listing());
        r
    }
}

/// Two registrations, the second made on a registry that has seen the first,
/// give distinct identifiers, and the later sees a strictly larger counter.
pub proof fn lemma_registrations_distinct<S>(
    a0: Registry<S>,
    a1: Registry<S>,
    addr1: Seq<char>,
    s1: S,
    id1: usize,
    b0: Registry<S>,
    b1: Registry<S>,
    addr2: Seq<char>,
    s2: S,
    id2: usize,
)
    requires
        register_step(a0, a1, addr1, s1, id1),
        a1.spec_next_id() <= b0.spec_next_id(),
        register_step(b0, b1, addr2, s2, id2),
    ensures
        id1 != id2,
        id1 < id2,
        b0.spec_next_id() > a0.spec_next_id(),
        b1.spec_next_id() > a1.spec_next_id(),
{
}

/// After a registration, the listing holds the new identifier and address.
pub proof fn lemma_register_then_list<S>(
    before: Registry<S>,
    after: Registry<S>,
    addr: Seq<char>,
    session: S,
    id: usize,
)
    requires
        register_step(before, after, addr, session, id),
    ensures
        after.listing().contains((id, addr)),
{
    let k = before.model().len() as int;
    assert(after.model()[k] == (id, addr, session));
    assert(after.listing()[k] == (id, addr));
}

/// After a removal no session stands under the identifier, and none comes
/// back under it with a later registration.
pub proof fn lemma_removed_stays_gone<S>(
    a: Registry<S>,
    b: Registry<S>,
    id: usize,
    s: S,
    c: Registry<S>,
    addr: Seq<char>,
    s2: S,
    id2: usize,
)
    requires
        a.wf(),
        remove_step(a, b, id, s),
        register_step(b, c, addr, s2, id2),
    ensures
        !has_id(b.model(), id),
        id2 != id,
        !has_id(c.model(), id),
{
    let i = choose|i: int|
        0 <= i < a.model().len() && (#[trigger] a.model()[i]).0 == id && s == a.model()[i].2
            && b.model() == a.model().remove(i);
    assert(a.entries@[i].id == id);
    assert(id < a.next_id);
    if has_id(b.model(), id) {
        let j = choose|j: int| 0 <= j < b.model().len() && (#[trigger] b.model()[j]).0 == id;
        if j < i {
            assert(a.model()[j] == b.model()[j]);
            assert(a.entries@[j].id < a.entries@[i].id);
        } else {
            assert(a.model()[j + 1] == b.model()[j]);
            assert(a.entries@[i].id < a.entries@[j + 1].id);
        }
    }
    if has_id(c.model(), id) {
        let j = choose|j: int| 0 <= j < c.model().len() && (#[trigger] c.model()[j]).0 == id;
        if j < b.model().len() {
            assert(c.model()[j] == b.model()[j]);
        }
    }
}

} // verus!
