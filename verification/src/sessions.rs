//! Which port the process of a session file listens on.
use vstd::prelude::*;

verus! {

/// Whether an entry is the one of a session file.
pub open spec fn entry_of(entries: Seq<(String, u16)>, session: Seq<char>, i: int) -> bool {
    0 <= i < entries.len() && entries[i].0@ == session
}

/// The ports of session files, by file.
pub open spec fn ports_by_session(entries: Seq<(String, u16)>) -> Map<Seq<char>, u16> {
    Map::new(
        |session: Seq<char>| exists|i: int| entry_of(entries, session, i),
        |session: Seq<char>| entries[choose|i: int| entry_of(entries, session, i)].1,
    )
}

/// Whether no session file has two entries.
pub open spec fn sessions_differ(entries: Seq<(String, u16)>) -> bool {
    forall|i: int, j: int|
        0 <= i < j < entries.len() ==> (#[trigger] entries[i]).0@ != (#[trigger] entries[j]).0@
}

/// The session files whose port is not among those given, with their ports.
pub open spec fn without_ports(sessions: Map<Seq<char>, u16>, ports: Seq<u16>) -> Map<
    Seq<char>,
    u16,
> {
    Map::new(
        |session: Seq<char>|
            sessions.contains_key(session) && !ports.contains(sessions[session]),
        |session: Seq<char>| sessions[session],
    )
}

/// The ports of session files, one for each file.
pub struct SessionPorts {
    entries: Vec<(String, u16)>,
}

impl View for SessionPorts {
    type V = Map<Seq<char>, u16>;

    closed spec fn view(&self) -> Map<Seq<char>, u16> {
        ports_by_session(self.entries@)
    }
}

proof fn lemma_entry(entries: Seq<(String, u16)>, i: int)
    requires
        sessions_differ(entries),
        0 <= i < entries.len(),
    ensures
        ports_by_session(entries).contains_key(entries[i].0@),
        ports_by_session(entries)[entries[i].0@] == entries[i].1,
{
    let session = entries[i].0@;
    assert(entry_of(entries, session, i));
    let k = choose|k: int| entry_of(entries, session, k);
    assert(entry_of(entries, session, k));
    assert(k == i);
}

/// Whether an entry is among those given and its port is not to go.
spec fn left_over(entries: Seq<(String, u16)>, ports: Seq<u16>, entry: (String, u16)) -> bool {
    entries.contains(entry) && !ports.contains(entry.1)
}

impl SessionPorts {
    #[verifier::type_invariant]
    closed spec fn one_entry_each(self) -> bool {
        sessions_differ(self.entries@)
    }

    /// No session file has a port.
    pub fn new() -> (ports: SessionPorts)
        ensures
            ports@ == Map::<Seq<char>, u16>::empty(),
    {
        let ports = SessionPorts { entries: Vec::new() };
        assert(ports@ =~= Map::empty()) by {
            assert forall|session: Seq<char>| !ports@.contains_key(session) by {
                assert forall|i: int| !entry_of(ports.entries@, session, i) by {}
            }
        }
        ports
    }

    fn find(&self, session: &str) -> (found: Option<usize>)
        ensures
            match found {
                Some(i) => i < self.entries@.len() && self.entries@[i as int].0@ == session@,
                None => forall|i: int| !entry_of(self.entries@, session@, i),
            },
    {
        for i in 0..self.entries.len()
            invariant
                forall|j: int| 0 <= j < i ==> (#[trigger] self.entries@[j]).0@ != session@,
        {
            if crate::text::same_text(self.entries[i].0.as_str(), session) {
                return Some(i);
            }
        }
        None
    }

    /// The port of a session file.
    pub fn get(&self, session: &str) -> (port: Option<u16>)
        ensures
            port == (if self@.contains_key(session@) {
                Some(self@[session@])
            } else {
                None
            }),
    {
        proof {
            use_type_invariant(self);
        }
        match self.find(session) {
            Some(i) => {
                proof {
                    lemma_entry(self.entries@, i as int);
                }
                Some(self.entries[i].1)
            },
            None => None,
        }
    }

    /// Gives a session file a port, in place of the one that it had.
    pub fn insert(&mut self, session: String, port: u16)
        ensures
            final(self)@ == old(self)@.insert(session@, port),
    {
        proof {
            use_type_invariant(&*self);
        }
        let ghost before = self.entries@;
        let found = self.find(session.as_str());
        let mut entries: Vec<(String, u16)> = Vec::new();
        std::mem::swap(&mut entries, &mut self.entries);
        match found {
            Some(i) => {
                entries.set(i, (session, port));
            },
            None => {
                assert forall|j: int| 0 <= j < before.len() implies (#[trigger] before[j]).0@
                    != session@ by {
                    assert(!entry_of(before, session@, j));
                }
                entries.push((session, port));
            },
        }
        let ghost after = entries@;
        proof {
            assert(sessions_differ(after));
            let old_map = ports_by_session(before);
            let new_map = ports_by_session(after);
            let slot: int = match found {
                Some(i) => i as int,
                None => before.len() as int,
            };
            assert(after[slot].0@ == session@);
            lemma_entry(after, slot);
            assert forall|s: Seq<char>| new_map.contains_key(s) == old_map.insert(
                session@,
                port,
            ).contains_key(s) by {
                if s != session@ {
                    if new_map.contains_key(s) {
                        let k = choose|k: int| entry_of(after, s, k);
                        assert(entry_of(before, s, k));
                    }
                    if old_map.contains_key(s) {
                        let k = choose|k: int| entry_of(before, s, k);
                        assert(entry_of(after, s, k));
                    }
                }
            }
            assert forall|s: Seq<char>| new_map.contains_key(s) implies #[trigger] new_map[s]
                == old_map.insert(session@, port)[s] by {
                if s != session@ {
                    let k = choose|k: int| entry_of(after, s, k);
                    lemma_entry(after, k);
                    assert(before[k] == after[k]);
                    lemma_entry(before, k);
                }
            }
            assert(new_map =~= old_map.insert(session@, port));
        }
        self.entries = entries;
    }

    /// Forgets the session files whose port is among those given.
    pub fn remove_ports(&mut self, ports: &Vec<u16>)
        ensures
            final(self)@ == without_ports(old(self)@, ports@),
    {
        proof {
            use_type_invariant(&*self);
        }
        let ghost before = self.entries@;
        let mut kept: Vec<(String, u16)> = Vec::new();
        for i in 0..self.entries.len()
            invariant
                before == self.entries@,
                sessions_differ(before),
                sessions_differ(kept@),
                forall|k: int|
                    0 <= k < kept@.len() ==> left_over(
                        before.take(i as int),
                        ports@,
                        #[trigger] kept@[k],
                    ),
                forall|j: int|
                    0 <= j < i && !ports@.contains((#[trigger] before[j]).1) ==> kept@.contains(
                        before[j],
                    ),
        {
            let port: u16 = self.entries[i].1;
            let ghost so_far = kept@;
            assert forall|k: int| 0 <= k < kept@.len() implies left_over(
                before.take(i + 1),
                ports@,
                #[trigger] kept@[k],
            ) by {
                let j = choose|j: int| 0 <= j < i && before.take(i as int)[j] == kept@[k];
                assert(before.take(i + 1)[j] == kept@[k]);
            }
            if !contains_port(ports, port) {
                kept.push((self.entries[i].0.clone(), port));
                proof {
                    assert(kept@[so_far.len() as int] == before[i as int]);
                    assert forall|j: int|
                        0 <= j < i + 1 && !ports@.contains(
                            (#[trigger] before[j]).1,
                        ) implies kept@.contains(before[j]) by {
                        if j < i {
                            let k = choose|k: int| 0 <= k < so_far.len() && so_far[k] == before[j];
                            assert(kept@[k] == before[j]);
                        }
                    }
                    assert(before.take(i + 1)[i as int] == before[i as int]);
                }
            }
        }
        proof {
            assert(before.take(before.len() as int) =~= before);
            let old_map = ports_by_session(before);
            let new_map = ports_by_session(kept@);
            let rest = without_ports(old_map, ports@);
            assert forall|s: Seq<char>| #[trigger] new_map.contains_key(s) implies
                rest.contains_key(s) && new_map[s] == old_map[s] by {
                let k = choose|k: int| entry_of(kept@, s, k);
                lemma_entry(kept@, k);
                assert(left_over(before, ports@, kept@[k]));
                let j = choose|j: int| 0 <= j < before.len() && before[j] == kept@[k];
                lemma_entry(before, j);
            }
            assert forall|s: Seq<char>| rest.contains_key(s) implies #[trigger] new_map.contains_key(s) by {
                let j = choose|j: int| entry_of(before, s, j);
                lemma_entry(before, j);
                assert(kept@.contains(before[j]));
                let k = choose|k: int| 0 <= k < kept@.len() && kept@[k] == before[j];
                lemma_entry(kept@, k);
            }
            assert(new_map =~= rest);
        }
        self.entries = kept;
    }
}

/// The ports of a list that are not among those given.
pub open spec fn other_ports(ports: Seq<u16>, gone: Seq<u16>) -> Seq<u16> {
    ports.filter(|port: u16| !gone.contains(port))
}

/// The ports of a list that are not among those given, in their order.
pub(crate) fn ports_besides(ports: &Vec<u16>, gone: &Vec<u16>) -> (others: Vec<u16>)
    ensures
        others@ == other_ports(ports@, gone@),
{
    let mut others: Vec<u16> = Vec::new();
    proof {
        reveal(Seq::filter);
        assert(ports@.take(0) =~= Seq::empty());
    }
    for i in 0..ports.len()
        invariant
            others@ == other_ports(ports@.take(i as int), gone@),
    {
        proof {
            reveal(Seq::filter);
            assert(ports@.take(i + 1).drop_last() =~= ports@.take(i as int));
        }
        let port: u16 = ports[i];
        if !contains_port(gone, port) {
            others.push(port);
        }
    }
    assert(ports@.take(ports@.len() as int) =~= ports@);
    others
}

pub(crate) proof fn lemma_other_ports(ports: Seq<u16>, gone: Seq<u16>)
    ensures
        forall|port: u16| #[trigger]
            other_ports(ports, gone).contains(port) <==> ports.contains(port) && !gone.contains(
                port,
            ),
        (forall|port: u16| #[trigger] ports.contains(port) ==> !gone.contains(port))
            ==> other_ports(ports, gone) == ports,
    decreases ports.len(),
{
    reveal(Seq::filter);
    if ports.len() > 0 {
        let shorter = ports.drop_last();
        let last = ports.last();
        let before = other_ports(shorter, gone);
        let after = other_ports(ports, gone);
        lemma_other_ports(shorter, gone);
        assert(after == if gone.contains(last) {
            before
        } else {
            before.push(last)
        });
        assert(ports =~= shorter.push(last));
        assert forall|port: u16| #[trigger] ports.contains(port) <==> shorter.contains(port) || port
            == last by {
            if shorter.contains(port) {
                let k = choose|k: int| 0 <= k < shorter.len() && shorter[k] == port;
                assert(ports[k] == port);
            }
            assert(ports[ports.len() - 1] == last);
        }
        assert forall|port: u16| #[trigger] before.push(last).contains(port) <==> before.contains(
            port,
        ) || port == last by {
            if before.contains(port) {
                let k = choose|k: int| 0 <= k < before.len() && before[k] == port;
                assert(before.push(last)[k] == port);
            }
            assert(before.push(last)[before.len() as int] == last);
        }
        if forall|port: u16| #[trigger] ports.contains(port) ==> !gone.contains(port) {
            assert(ports.contains(last));
            assert forall|port: u16| #[trigger] shorter.contains(port) implies !gone.contains(
                port,
            ) by {
                assert(ports.contains(port));
            }
        }
    }
}

/// Whether a port is in a list.
pub(crate) fn contains_port(ports: &Vec<u16>, port: u16) -> (found: bool)
    ensures
        found == ports@.contains(port),
{
    for i in 0..ports.len()
        invariant
            forall|j: int| 0 <= j < i ==> ports@[j] != port,
    {
        if ports[i] == port {
            return true;
        }
    }
    false
}

/// Forgetting ports takes away exactly the session files that have one of them, and leaves the
/// others their ports.
pub proof fn law_session_files_lose_forgotten_ports(
    ports_of: Map<Seq<char>, u16>,
    gone: Seq<u16>,
    session: Seq<char>,
)
    ensures
        without_ports(ports_of, gone).contains_key(session) <==> ports_of.contains_key(session)
            && !gone.contains(ports_of[session]),
        without_ports(ports_of, gone).contains_key(session) ==> without_ports(ports_of, gone)[session]
            == ports_of[session],
{
}

/// Leaving ports out of a list keeps the others in their order: a list is gone through part by
/// part, and a port stays exactly if it is not among those that go.
pub proof fn law_other_ports_stay_in_order(
    front: Seq<u16>,
    rest: Seq<u16>,
    gone: Seq<u16>,
    port: u16,
)
    ensures
        other_ports(front + rest, gone) == other_ports(front, gone) + other_ports(rest, gone),
        gone.contains(port) ==> other_ports(seq![port], gone) == Seq::<u16>::empty(),
        !gone.contains(port) ==> other_ports(seq![port], gone) == seq![port],
        other_ports(Seq::empty(), gone) == Seq::<u16>::empty(),
    decreases rest.len(),
{
    reveal(Seq::filter);
    assert(seq![port].drop_last() =~= Seq::empty());
    reveal_with_fuel(Seq::filter, 2);
    assert(Seq::<u16>::empty().push(port) =~= seq![port]);
    if rest.len() == 0 {
        assert(front + rest =~= front);
        assert(other_ports(front, gone) + other_ports(rest, gone) =~= other_ports(front, gone));
    } else {
        law_other_ports_stay_in_order(front, rest.drop_last(), gone, port);
        assert((front + rest).drop_last() =~= front + rest.drop_last());
        assert(other_ports(front + rest, gone) =~= other_ports(front, gone) + other_ports(
            rest,
            gone,
        ));
    }
}

} // verus!
