//! The face registry of a transport: the one owner of its faces.
//!
//! Callers name a face by its identifier and the registry resolves it, so a
//! face that has closed and left the registry is observed as a lookup miss.

use crate::error::Error;
use crate::face::{all_ids, Face, FaceEvent};
use crate::ndn::{Data, Interest};
use crate::types::FaceId;
use vstd::prelude::*;
use vstd::string::StringExecFns;

verus! {

/// What a transport reports.
#[derive(Debug, Clone)]
pub enum TransportEvent {
    /// A face was created; its identifier.
    FaceCreated(String),
    /// A face was closed; its identifier.
    FaceClosed(String),
    /// An Interest arrived on a face.
    InterestReceived { interest: Interest, face_id: String },
    /// A Data arrived on a face.
    DataReceived { data: Data, face_id: String },
    /// Something failed; the message of the face.
    Error(String),
}

/// The first place at which the name stands in the list, if any.
pub open spec fn position(names: Seq<Seq<char>>, name: Seq<char>) -> Option<int>
    decreases names.len(),
{
    if names.len() == 0 {
        None
    } else {
        match position(names.drop_last(), name) {
            Some(i) => Some(i),
            None => if names.last() == name {
                Some(names.len() - 1)
            } else {
                None
            },
        }
    }
}

/// The names of the faces, in order.
pub open spec fn face_names(faces: Seq<Face>) -> Seq<Seq<char>> {
    Seq::new(faces.len(), |i: int| faces[i].name())
}

/// The first place at which a face of the given name stands, if any.
pub open spec fn first_named(faces: Seq<Face>, name: Seq<char>) -> Option<int> {
    position(face_names(faces), name)
}

/// The face that a caller means: the first of the given name, or the first
/// of all where no name is given.
pub open spec fn selected(faces: Seq<Face>, name: Option<Seq<char>>) -> Option<int> {
    match name {
        Some(n) => first_named(faces, n),
        None => if faces.len() > 0 {
            Some(0int)
        } else {
            None
        },
    }
}

/// A name that is found stands at the place found, and at no place before it.
pub proof fn lemma_position(names: Seq<Seq<char>>, name: Seq<char>)
    ensures
        match position(names, name) {
            Some(i) => 0 <= i < names.len() && names[i] == name && forall|j: int|
                0 <= j < i ==> names[j] != name,
            None => forall|j: int| 0 <= j < names.len() ==> names[j] != name,
        },
    decreases names.len(),
{
    if names.len() > 0 {
        lemma_position(names.drop_last(), name);
        match position(names.drop_last(), name) {
            Some(i) => {
                assert(names.drop_last()[i] == names[i]);
                assert forall|j: int| 0 <= j < i implies names[j] != name by {
                    assert(names.drop_last()[j] == names[j]);
                }
            },
            None => {
                assert forall|j: int| 0 <= j < names.len() - 1 implies names[j] != name by {
                    assert(names.drop_last()[j] == names[j]);
                }
            },
        }
    }
}

/// The first place at which a name stands is its position.
pub proof fn lemma_position_is_first(names: Seq<Seq<char>>, name: Seq<char>, i: int)
    requires
        0 <= i < names.len(),
        names[i] == name,
        forall|j: int| 0 <= j < i ==> names[j] != name,
    ensures
        position(names, name) == Some(i),
{
    lemma_position(names, name);
}

/// The faces of a transport.
#[derive(Debug)]
pub struct FaceRegistry {
    faces: Vec<Face>,
}

impl FaceRegistry {
    /// The faces, in the order in which they were added.
    pub closed spec fn faces(&self) -> Seq<Face> {
        self.faces@
    }

    /// Every face is well formed.
    pub open spec fn wf(&self) -> bool {
        forall|i: int| 0 <= i < self.faces().len() ==> (#[trigger] self.faces()[i]).wf()
    }

    /// A registry without faces.
    pub fn new() -> (r: Self)
        ensures
            r.wf(),
            r.faces() == Seq::<Face>::empty(),
    {
        FaceRegistry { faces: Vec::new() }
    }

    /// The number of faces.
    pub fn len(&self) -> (n: usize)
        ensures
            n == self.faces().len(),
    {
        self.faces.len()
    }

    /// Adds a face and reports its creation.
    pub fn add(&mut self, face: Face) -> (e: TransportEvent)
        ensures
            final(self).faces() == old(self).faces().push(face),
            e matches TransportEvent::FaceCreated(id) && id@ == face.name(),
    {
        let id = face.id().to_owned();
        self.faces.push(face);
        TransportEvent::FaceCreated(id)
    }

    /// The place of the first face with the given identifier.
    pub fn find(&self, id: &str) -> (r: Option<usize>)
        ensures
            match r {
                Some(i) => first_named(self.faces(), id@) == Some(i as int),
                None => first_named(self.faces(), id@) is None,
            },
    {
        let mut i: usize = 0;
        let owned = id.to_owned();
        let ghost names = face_names(self.faces@);
        while i < self.faces.len()
            invariant
                i <= self.faces@.len(),
                owned@ == id@,
                names == face_names(self.faces@),
                forall|j: int| 0 <= j < i ==> names[j] != id@,
            decreases self.faces.len() - i,
        {
            let name = self.faces[i].id().to_owned();
            if name == owned {
                proof {
                    lemma_position_is_first(names, id@, i as int);
                }
                return Some(i);
            }
            i += 1;
        }
        proof {
            lemma_position(names, id@);
        }
        None
    }

    /// The place of the face that a caller means: the first with the given
    /// identifier, or the first of all where none is given.
    pub fn select(&self, face_id: Option<&str>) -> (r: Result<usize, Error>)
        ensures
            match r {
                Ok(i) => selected(
                    self.faces(),
                    match face_id {
                        Some(id) => Some(id@),
                        None => None,
                    },
                ) == Some(i as int),
                Err(e) => selected(
                    self.faces(),
                    match face_id {
                        Some(id) => Some(id@),
                        None => None,
                    },
                ) is None && e == Error::NotFound,
            },
    {
        match face_id {
            Some(id) => match self.find(id) {
                Some(i) => Ok(i),
                None => Err(Error::NotFound),
            },
            None => {
                if self.faces.len() == 0 {
                    Err(Error::NotFound)
                } else {
                    Ok(0)
                }
            },
        }
    }

    /// The face at a place.
    pub fn face(&self, i: usize) -> (f: &Face)
        requires
            i < self.faces().len(),
        ensures
            *f == self.faces()[i as int],
    {
        &self.faces[i]
    }

    /// The face at a place, to act on it.
    pub fn face_mut(&mut self, i: usize) -> (f: &mut Face)
        requires
            i < old(self).faces().len(),
        ensures
            *f == old(self).faces()[i as int],
            final(self).faces() == old(self).faces().update(i as int, *final(f)),
    {
        &mut self.faces[i]
    }

    /// Closes the face at a place and takes it out of the registry. Hands
    /// back the event that reports it and the tokens of the waiters that are
    /// to be told.
    pub fn remove(&mut self, i: usize) -> (r: (TransportEvent, Vec<u64>))
        requires
            i < old(self).faces().len(),
            old(self).wf(),
        ensures
            final(self).wf(),
            final(self).faces() == old(self).faces().remove(i as int),
            r.0 matches TransportEvent::FaceClosed(id) && id@ == old(self).faces()[i as int].name(),
            r.1@ == if old(self).faces()[i as int].is_closed() {
                Seq::<u64>::empty()
            } else {
                all_ids(old(self).faces()[i as int].pending())
            },
    {
        let mut face = self.faces.remove(i);
        let ids = face.close();
        let id = face.id().to_owned();
        (TransportEvent::FaceClosed(id), ids)
    }

    /// Closes every face. Hands back, for each face in order, the tokens of
    /// the waiters that are to be told that the face has closed.
    pub fn close_all(&mut self) -> (told: Vec<Vec<u64>>)
        requires
            old(self).wf(),
        ensures
            final(self).wf(),
            final(self).faces().len() == old(self).faces().len(),
            told@.len() == old(self).faces().len(),
            forall|i: int|
                0 <= i < told@.len() ==> {
                    &&& (#[trigger] final(self).faces()[i]).is_closed()
                    &&& final(self).faces()[i].name() == old(self).faces()[i].name()
                    &&& final(self).faces()[i].pending() == Seq::<(u64, Seq<char>)>::empty()
                    &&& told@[i]@ == if old(self).faces()[i].is_closed() {
                        Seq::<u64>::empty()
                    } else {
                        all_ids(old(self).faces()[i].pending())
                    }
                },
    {
        let mut told: Vec<Vec<u64>> = Vec::new();
        let mut i: usize = 0;
        assert forall|j: int| 0 <= j < self.faces@.len() implies (
        #[trigger] self.faces@[j]).wf() by {
            assert(self.faces()[j].wf());
        }
        while i < self.faces.len()
            invariant
                i <= self.faces@.len(),
                self.faces@.len() == old(self).faces@.len(),
                told@.len() == i,
                forall|j: int| i <= j < self.faces@.len() ==> self.faces@[j] == old(self).faces@[j],
                forall|j: int| 0 <= j < self.faces@.len() ==> (#[trigger] self.faces@[j]).wf(),
                forall|j: int|
                    0 <= j < i ==> {
                        &&& (#[trigger] self.faces@[j]).is_closed()
                        &&& self.faces@[j].name() == old(self).faces@[j].name()
                        &&& self.faces@[j].pending() == Seq::<(u64, Seq<char>)>::empty()
                        &&& told@[j]@ == if old(self).faces@[j].is_closed() {
                            Seq::<u64>::empty()
                        } else {
                            all_ids(old(self).faces@[j].pending())
                        }
                    },
            decreases self.faces.len() - i,
        {
            let ids = self.faces[i].close();
            told.push(ids);
            i += 1;
        }
        told
    }

    /// What the transport reports for an event of the face with the given
    /// identifier. An error is reported as `Face <identifier>: <message>`.
    /// The closing of a face is reported by `remove`.
    pub fn report(event: FaceEvent, face_id: &str) -> (e: TransportEvent)
        ensures
            match event {
                FaceEvent::InterestReceived(i) => e matches TransportEvent::InterestReceived {
                    interest,
                    face_id: f,
                } && interest == i && f@ == face_id@,
                FaceEvent::DataReceived(d) => e matches TransportEvent::DataReceived {
                    data,
                    face_id: f,
                } && data == d && f@ == face_id@,
                FaceEvent::Closed => e matches TransportEvent::FaceClosed(f) && f@ == face_id@,
                FaceEvent::Error(m) => e matches TransportEvent::Error(msg) && msg@ == "Face "@
                    + face_id@ + ": "@ + m@,
            },
    {
        match event {
            FaceEvent::InterestReceived(interest) => TransportEvent::InterestReceived {
                interest,
                face_id: face_id.to_owned(),
            },
            FaceEvent::DataReceived(data) => TransportEvent::DataReceived {
                data,
                face_id: face_id.to_owned(),
            },
            FaceEvent::Closed => TransportEvent::FaceClosed(face_id.to_owned()),
            FaceEvent::Error(message) => {
                let mut text = "Face ".to_owned();
                text.append(face_id);
                text.append(": ");
                text.append(message.as_str());
                TransportEvent::Error(text)
            },
        }
    }
}

/// Stable numbers for faces: a face keeps the number that it was first
/// given, whatever happens to other faces, so that the records of the tables
/// go on to mean the face that they meant.
#[derive(Debug)]
pub struct FaceNumbers {
    names: Vec<String>,
}

impl FaceNumbers {
    /// The identifiers that have a number, in the order of their numbers.
    pub closed spec fn names(&self) -> Seq<Seq<char>> {
        Seq::new(self.names@.len(), |i: int| self.names@[i]@)
    }

    /// No face has a number yet.
    pub fn new() -> (n: Self)
        ensures
            n.names() == Seq::<Seq<char>>::empty(),
    {
        let n = FaceNumbers { names: Vec::new() };
        assert(n.names() =~= Seq::<Seq<char>>::empty());
        n
    }

    /// The number of the face with the given identifier, if it has one.
    pub fn lookup(&self, id: &str) -> (r: Option<FaceId>)
        ensures
            match r {
                Some(face) => position(self.names(), id@) == Some(face.0 as int),
                None => position(self.names(), id@) is None || position(self.names(), id@)->0
                    > u16::MAX,
            },
    {
        let owned = id.to_owned();
        let mut i: usize = 0;
        while i < self.names.len()
            invariant
                i <= self.names@.len(),
                owned@ == id@,
                forall|j: int| 0 <= j < i ==> self.names()[j] != id@,
            decreases self.names.len() - i,
        {
            assert(self.names()[i as int] == self.names@[i as int]@);
            if self.names[i] == owned {
                proof {
                    lemma_position_is_first(self.names(), id@, i as int);
                }
                if i > 0xFFFF {
                    return None;
                }
                return Some(FaceId(i as u16));
            }
            i += 1;
        }
        proof {
            lemma_position(self.names(), id@);
        }
        None
    }

    /// The number of the face with the given identifier; a face without a
    /// number gets the next one. There are no more than 65536 numbers.
    pub fn number_for(&mut self, id: &str) -> (r: Result<FaceId, Error>)
        ensures
            match r {
                Ok(face) => match position(old(self).names(), id@) {
                    Some(i) => i == face.0 && final(self).names() == old(self).names(),
                    None => face.0 == old(self).names().len() && final(self).names() == old(
                        self,
                    ).names().push(id@),
                },
                Err(e) => e == Error::CapacityExceeded && final(self).names() == old(
                    self,
                ).names() && match position(old(self).names(), id@) {
                    Some(i) => i > u16::MAX,
                    None => old(self).names().len() > u16::MAX,
                },
            },
    {
        let owned = id.to_owned();
        let mut i: usize = 0;
        while i < self.names.len()
            invariant
                i <= self.names@.len(),
                self == old(self),
                owned@ == id@,
                forall|j: int| 0 <= j < i ==> self.names()[j] != id@,
            decreases self.names.len() - i,
        {
            assert(self.names()[i as int] == self.names@[i as int]@);
            if self.names[i] == owned {
                proof {
                    lemma_position_is_first(self.names(), id@, i as int);
                }
                if i > 0xFFFF {
                    return Err(Error::CapacityExceeded);
                }
                return Ok(FaceId(i as u16));
            }
            i += 1;
        }
        proof {
            lemma_position(self.names(), id@);
        }
        if i > 0xFFFF {
            return Err(Error::CapacityExceeded);
        }
        self.names.push(owned);
        assert(self.names() =~= old(self).names().push(id@));
        Ok(FaceId(i as u16))
    }

    /// The identifier of the face with the given number, if the number has
    /// been given out.
    pub fn name_of(&self, face: FaceId) -> (r: Option<&str>)
        ensures
            match r {
                Some(id) => face.0 < self.names().len() && id@ == self.names()[face.0 as int],
                None => face.0 >= self.names().len(),
            },
    {
        let i = face.0 as usize;
        if i < self.names.len() {
            assert(self.names()[i as int] == self.names@[i as int]@);
            Some(self.names[i].as_str())
        } else {
            None
        }
    }
}

} // verus!
