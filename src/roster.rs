use vstd::prelude::*;

verus! {

/// A user named in a `team add` message.
#[derive(Debug, Clone)]
pub struct Mention {
    pub name: String,
    pub bot: bool,
}

/// Teams by unique name, each with its members in the order given.
pub struct Roster {
    teams: Vec<(String, Vec<String>)>,
}

#[derive(Debug, Clone, Copy, PartialEq, Eq, Structural)]
pub enum TeamAddOutcome {
    Added,
    NoMembers,
}

/// The names of the mentioned users that are not bots, in order.
pub open spec fn humans(ms: Seq<Mention>) -> Seq<Seq<char>>
    decreases ms.len(),
{
    if ms.len() == 0 {
        Seq::empty()
    } else if ms.last().bot {
        humans(ms.drop_last())
    } else {
        humans(ms.drop_last()).push(ms.last().name@)
    }
}

pub open spec fn has_team(m: Seq<(Seq<char>, Seq<Seq<char>>)>, name: Seq<char>) -> bool {
    exists|i: int| 0 <= i < m.len() && (#[trigger] m[i]).0 == name
}

/// Each member followed by one space.
pub open spec fn spaced(members: Seq<Seq<char>>) -> Seq<char>
    decreases members.len(),
{
    if members.len() == 0 {
        Seq::empty()
    } else {
        spaced(members.drop_last()) + members.last() + " "@
    }
}

impl Roster {
    /// The teams, as (name, members), in the order they were added.
    pub closed spec fn model(&self) -> Seq<(Seq<char>, Seq<Seq<char>>)> {
        self.teams@.map_values(
            |t: (String, Vec<String>)| (t.0@, t.1@.map_values(|m: String| m@)),
        )
    }

    /// No two teams share a name.
    pub closed spec fn wf(&self) -> bool {
        forall|i: int, j: int|
            0 <= i < j < self.teams@.len() ==> (#[trigger] self.teams@[i]).0@ != (#[trigger] self.teams@[j]).0@
    }

    pub fn new() -> (r: Roster)
        ensures
            r.wf(),
            r.model() == Seq::<(Seq<char>, Seq<Seq<char>>)>::empty(),
    {
        let r = Roster { teams: Vec::new() };
        assert(r.model() =~= Seq::<(Seq<char>, Seq<Seq<char>>)>::empty());
        r
    }

    fn has(&self, name: &String) -> (r: bool)
        ensures
            r == has_team(self.model(), name@),
    {
        let mut i: usize = 0;
        while i < self.teams.len()
            invariant
                0 <= i <= self.teams@.len(),
                forall|k: int| 0 <= k < i ==> (#[trigger] self.teams@[k]).0@ != name@,
            decreases self.teams@.len() - i,
        {
            if self.teams[i].0 == *name {
                assert(self.model()[i as int].0 == name@);
                return true;
            }
            i = i + 1;
        }
        assert(!has_team(self.model(), name@)) by {
            if has_team(self.model(), name@) {
                let k = choose|k: int| 0 <= k < self.model().len() && (#[trigger] self.model()[k]).0 == name@;
                assert(self.teams@[k].0@ == name@);
            }
        }
        false
    }

    /// Adds a team of the mentioned users that are not bots. With none left
    /// nothing changes; a team that exists already keeps its members.
    pub fn add_team(&mut self, name: String, mentions: &Vec<Mention>) -> (r: TeamAddOutcome)
        requires
            old(self).wf(),
        ensures
            final(self).wf(),
            r == TeamAddOutcome::NoMembers <==> humans(mentions@).len() == 0,
            r == TeamAddOutcome::NoMembers ==> final(self).model() == old(self).model(),
            r == TeamAddOutcome::Added ==> final(self).model() == (if has_team(
                old(self).model(),
                name@,
            ) {
                old(self).model()
            } else {
                old(self).model().push((name@, humans(mentions@)))
            }),
    {
        let mut members: Vec<String> = Vec::new();
        let mut i: usize = 0;
        while i < mentions.len()
            invariant
                0 <= i <= mentions@.len(),
                members@.map_values(|m: String| m@) == humans(mentions@.take(i as int)),
            decreases mentions@.len() - i,
        {
            assert(mentions@.take(i + 1).drop_last() =~= mentions@.take(i as int));
            let ghost before = members@.map_values(|m: String| m@);
            if !mentions[i].bot {
                members.push(mentions[i].name.clone());
                assert(members@.map_values(|m: String| m@) =~= before.push(mentions@[i as int].name@));
            }
            i = i + 1;
        }
        assert(mentions@.take(i as int) =~= mentions@);
        if members.len() == 0 {
            return TeamAddOutcome::NoMembers;
        }
        if !self.has(&name) {
            let ghost m = self.model();
            let ghost entry = (name@, members@.map_values(|s: String| s@));
            proof {
                assert forall|k: int| 0 <= k < self.teams@.len() implies (#[trigger] self.teams@[k]).0@ != name@ by {
                    assert(self.model()[k].0 == self.teams@[k].0@);
                }
            }
            self.teams.push((name, members));
            assert(self.model() =~= m.push(entry));
        }
        TeamAddOutcome::Added
    }

    /// Each team's name with its members, each followed by a space.
    pub fn list(&self) -> (r: Vec<(String, String)>)
        ensures
            r@.len() == self.model().len(),
            forall|i: int|
                0 <= i < r@.len() ==> (#[trigger] r@[i]).0@ == self.model()[i].0 && r@[i].1@
                    == spaced(self.model()[i].1),
    {
        let mut r: Vec<(String, String)> = Vec::new();
        let mut i: usize = 0;
        while i < self.teams.len()
            invariant
                0 <= i <= self.teams@.len(),
                r@.len() == i,
                forall|k: int|
                    0 <= k < i ==> (#[trigger] r@[k]).0@ == self.model()[k].0 && r@[k].1@ == spaced(
                        self.model()[k].1,
                    ),
            decreases self.teams@.len() - i,
        {
            let line = members_line(&self.teams[i].1);
            r.push((self.teams[i].0.clone(), line));
            i = i + 1;
        }
        r
    }
}

/// The members, each followed by one space.
pub fn members_line(members: &Vec<String>) -> (r: String)
    ensures
        r@ == spaced(members@.map_values(|m: String| m@)),
{
    let ghost ms = members@.map_values(|m: String| m@);
    let mut r = String::new();
    let mut i: usize = 0;
    while i < members.len()
        invariant
            0 <= i <= members@.len(),
            ms == members@.map_values(|m: String| m@),
            r@ == spaced(ms.take(i as int)),
        decreases members@.len() - i,
    {
        assert(ms.take(i + 1).drop_last() =~= ms.take(i as int));
        r.append(members[i].as_str());
        r.append(" ");
        i = i + 1;
    }
    assert(ms.take(i as int) =~= ms);
    r
}

} // verus!
