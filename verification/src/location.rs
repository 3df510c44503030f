//! Where files and directories are, before they are written as paths of the system.
use crate::posix;
use crate::posix::push_part;
use crate::text;
use vstd::prelude::*;

verus! {

/// A directory or file, as a path to start from and the parts to put behind it.
pub struct Place {
    pub base: Seq<char>,
    pub parts: Seq<Seq<char>>,
}

impl Place {
    /// The path itself.
    pub open spec fn at(base: Seq<char>) -> Place {
        Place { base, parts: Seq::empty() }
    }

    /// The place one part further.
    pub open spec fn join(self, part: Seq<char>) -> Place {
        Place { base: self.base, parts: self.parts.push(part) }
    }
}

/// The path of a place by the POSIX rules.
pub open spec fn posix_path(base: Seq<char>, parts: Seq<Seq<char>>) -> Seq<char>
    decreases parts.len(),
{
    if parts.len() == 0 {
        base
    } else {
        posix::pushed(posix_path(base, parts.drop_last()), parts.last())
    }
}

/// The POSIX paths of a list of places.
pub open spec fn posix_paths(places: Seq<Place>) -> Seq<Seq<char>> {
    Seq::new(places.len(), |i: int| posix_path(places[i].base, places[i].parts))
}

/// A directory or file that is yet to be written as a path of the system.
pub struct Location {
    /// The path to start from.
    pub base: String,
    /// What is put behind it, one part after the other.
    pub parts: Vec<String>,
}

impl View for Location {
    type V = Place;

    open spec fn view(&self) -> Place {
        Place { base: self.base@, parts: text::texts(self.parts@) }
    }
}

/// The places of a list of locations.
pub open spec fn places(list: Seq<Location>) -> Seq<Place> {
    Seq::new(list.len(), |i: int| list[i]@)
}

impl Location {
    /// The location of a path itself.
    pub fn at(base: &str) -> (location: Location)
        ensures
            location@ == Place::at(base@),
    {
        let location = Location { base: base.to_owned(), parts: Vec::new() };
        assert(text::texts(location.parts@) =~= Seq::empty());
        location
    }

    /// The location one part further.
    pub fn join(self, part: &str) -> (location: Location)
        ensures
            location@ == self@.join(part@),
    {
        let mut parts = self.parts;
        let ghost before = text::texts(parts@);
        parts.push(part.to_owned());
        assert(text::texts(parts@) =~= before.push(part@));
        Location { base: self.base, parts }
    }

    /// The path of the location by the POSIX rules.
    pub fn posix(&self) -> (path: String)
        ensures
            path@ == posix_path(self@.base, self@.parts),
    {
        let mut path: String = self.base.clone();
        let ghost all = self@.parts;
        assert(all.take(0) =~= Seq::empty());
        for i in 0..self.parts.len()
            invariant
                all == text::texts(self.parts@),
                path@ == posix_path(self.base@, all.take(i as int)),
        {
            assert(all.take(i + 1).drop_last() =~= all.take(i as int));
            path = push_part(path.as_str(), self.parts[i].as_str());
        }
        assert(all.take(all.len() as int) =~= all);
        path
    }
}

/// A place is the path that it starts from and the parts put behind it, in their order.
pub proof fn law_place_holds_its_parts(base: Seq<char>, parts: Seq<Seq<char>>, part: Seq<char>)
    ensures
        Place::at(base) == (Place { base, parts: Seq::empty() }),
        (Place { base, parts }).join(part) == (Place { base, parts: parts.push(part) }),
{
}

/// The path of a place is its parts put behind the path that it starts from, one after the
/// other.
pub proof fn law_posix_path_puts_part_after_part(
    base: Seq<char>,
    front: Seq<Seq<char>>,
    rest: Seq<Seq<char>>,
    part: Seq<char>,
)
    ensures
        posix_path(base, Seq::empty()) == base,
        posix_path(base, seq![part]) == posix::pushed(base, part),
        posix_path(base, front + rest) == posix_path(posix_path(base, front), rest),
    decreases rest.len(),
{
    assert(seq![part].drop_last() =~= Seq::empty());
    reveal_with_fuel(posix_path, 2);
    if rest.len() == 0 {
        assert(front + rest =~= front);
    } else {
        law_posix_path_puts_part_after_part(base, front, rest.drop_last(), part);
        assert((front + rest).drop_last() =~= front + rest.drop_last());
    }
}

/// A location stands for the place with its texts, and a list of locations or places is taken
/// one by one, in order.
pub proof fn law_locations_stand_for_places(
    location: Location,
    list: Seq<Location>,
    all: Seq<Place>,
)
    ensures
        location@.base == location.base@,
        location@.parts.len() == location.parts@.len(),
        forall|i: int|
            0 <= i < location.parts@.len() ==> #[trigger] location@.parts[i]
                == location.parts@[i]@,
        places(list).len() == list.len(),
        forall|i: int| 0 <= i < list.len() ==> #[trigger] places(list)[i] == list[i]@,
        posix_paths(all).len() == all.len(),
        forall|i: int|
            0 <= i < all.len() ==> #[trigger] posix_paths(all)[i] == posix_path(
                all[i].base,
                all[i].parts,
            ),
{
}

} // verus!
