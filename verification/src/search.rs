//! Looking for files: the places to look in, in order, and what was found
//! there.

use crate::path::{FilePath, PathView};
use crate::text::{copy_texts, same_text, texts};
use vstd::prelude::*;

verus! {

/// A place to look in: the path `base`, or what lies below it under the given
/// names.
#[derive(Debug)]
pub struct Candidate {
    pub base: String,
    pub below: Vec<String>,
}

/// A place with its texts as sequences.
pub struct CandidateView {
    pub base: Seq<char>,
    pub below: Seq<Seq<char>>,
}

impl View for Candidate {
    type V = CandidateView;

    open spec fn view(&self) -> CandidateView {
        CandidateView { base: self.base@, below: texts(self.below@) }
    }
}

/// The places of a list as values.
pub open spec fn candidates_view(list: Seq<Candidate>) -> Seq<CandidateView> {
    list.map_values(|c: Candidate| c@)
}

/// Something that exists at a place that was looked in.
#[derive(Debug)]
pub struct Found {
    pub candidate: Candidate,
    pub path: FilePath,
}

/// What was found, with its texts as sequences.
pub struct FoundView {
    pub candidate: CandidateView,
    pub path: PathView,
}

impl View for Found {
    type V = FoundView;

    open spec fn view(&self) -> FoundView {
        FoundView { candidate: self.candidate@, path: self.path@ }
    }
}

/// What was found, as values.
pub open spec fn found_view(list: Seq<Found>) -> Seq<FoundView> {
    list.map_values(|f: Found| f@)
}

/// What was found at a place.
pub open spec fn found_at(found: Seq<FoundView>, place: CandidateView) -> Option<PathView>
    decreases found.len(),
{
    if found.len() == 0 {
        None
    } else if found[0].candidate == place {
        Some(found[0].path)
    } else {
        found_at(found.skip(1), place)
    }
}

/// What was found at the first of the places where anything was found.
pub open spec fn first_found(places: Seq<CandidateView>, found: Seq<FoundView>) -> Option<PathView>
    decreases places.len(),
{
    if places.len() == 0 {
        None
    } else {
        match found_at(found, places[0]) {
            Some(p) => Some(p),
            None => first_found(places.skip(1), found),
        }
    }
}

impl Candidate {
    /// The place `base` itself.
    pub fn at(base: &str) -> (place: Candidate)
        ensures
            place@ == (CandidateView { base: base@, below: Seq::empty() }),
    {
        let place = Candidate { base: base.to_owned(), below: Vec::new() };
        assert(place@.below == Seq::<Seq<char>>::empty());
        place
    }

    /// What lies below `base` under one name.
    pub fn in_dir(base: &str, name: &str) -> (place: Candidate)
        ensures
            place@ == (CandidateView { base: base@, below: seq![name@] }),
    {
        let mut below: Vec<String> = Vec::new();
        below.push(name.to_owned());
        let place = Candidate { base: base.to_owned(), below };
        assert(place@.below == seq![name@]);
        place
    }

    /// What lies below `base` under two names.
    pub fn two_below(base: &str, dir: &str, name: &str) -> (place: Candidate)
        ensures
            place@ == (CandidateView { base: base@, below: seq![dir@, name@] }),
    {
        let mut below: Vec<String> = Vec::new();
        below.push(dir.to_owned());
        below.push(name.to_owned());
        let place = Candidate { base: base.to_owned(), below };
        assert(place@.below == seq![dir@, name@]);
        place
    }

    /// Whether two places are the same.
    pub fn same(&self, other: &Candidate) -> (yes: bool)
        ensures
            yes == (self@ == other@),
    {
        assert(self@.below.len() == self.below@.len());
        assert(other@.below.len() == other.below@.len());
        if !same_text(self.base.as_str(), other.base.as_str()) || self.below.len()
            != other.below.len() {
            return false;
        }
        for i in 0..self.below.len()
            invariant
                self.base@ == other.base@,
                self.below@.len() == other.below@.len(),
                forall|j: int| 0 <= j < i ==> self@.below[j] == other@.below[j],
        {
            if !same_text(self.below[i].as_str(), other.below[i].as_str()) {
                assert(self@.below[i as int] != other@.below[i as int]);
                return false;
            }
        }
        assert(self@.below == other@.below);
        true
    }
}

impl Clone for Candidate {
    fn clone(&self) -> (copy: Candidate)
        ensures
            copy@ == self@,
    {
        Candidate { base: self.base.clone(), below: copy_texts(&self.below) }
    }
}

/// What was found at a place.
pub fn lookup<'a>(found: &'a Vec<Found>, place: &Candidate) -> (path: Option<&'a FilePath>)
    ensures
        match path {
            Some(p) => found_at(found_view(found@), place@) == Some(p@),
            None => found_at(found_view(found@), place@) is None,
        },
{
    let ghost all = found_view(found@);
    let mut i: usize = 0;
    assert(all.skip(0) == all);
    while i < found.len()
        invariant
            all == found_view(found@),
            i <= found@.len(),
            found_at(all, place@) == found_at(all.skip(i as int), place@),
        decreases found@.len() - i,
    {
        assert(all.skip(i as int)[0] == found@[i as int]@);
        if found[i].candidate.same(place) {
            return Some(&found[i].path);
        }
        assert(all.skip(i as int).skip(1) == all.skip(i + 1));
        i = i + 1;
    }
    None
}

/// What was found at the first of the places where anything was found.
pub fn first_existing(places: &Vec<Candidate>, found: &Vec<Found>) -> (path: Option<FilePath>)
    ensures
        match path {
            Some(p) => first_found(candidates_view(places@), found_view(found@)) == Some(p@),
            None => first_found(candidates_view(places@), found_view(found@)) is None,
        },
{
    let ghost all = candidates_view(places@);
    let ghost seen = found_view(found@);
    let mut i: usize = 0;
    assert(all.skip(0) == all);
    while i < places.len()
        invariant
            all == candidates_view(places@),
            seen == found_view(found@),
            i <= places@.len(),
            first_found(all, seen) == first_found(all.skip(i as int), seen),
        decreases places@.len() - i,
    {
        assert(all.skip(i as int)[0] == places@[i as int]@);
        if let Some(p) = lookup(found, &places[i]) {
            return Some(p.clone());
        }
        assert(all.skip(i as int).skip(1) == all.skip(i + 1));
        i = i + 1;
    }
    None
}

/// A search stops at the first place that holds something: it finds nothing
/// exactly when no place does, and what it finds lies at a place before which
/// there was nothing.
pub proof fn law_first_found(places: Seq<CandidateView>, found: Seq<FoundView>)
    ensures
        match first_found(places, found) {
            Some(p) => exists|i: int|
                #![trigger places[i]]
                0 <= i < places.len() && found_at(found, places[i]) == Some(p) && forall|j: int|
                    0 <= j < i ==> found_at(found, #[trigger] places[j]) is None,
            None => forall|i: int|
                0 <= i < places.len() ==> found_at(found, #[trigger] places[i]) is None,
        },
    decreases places.len(),
{
    if places.len() > 0 {
        let rest = places.skip(1);
        law_first_found(rest, found);
        match found_at(found, places[0]) {
            Some(p) => {
                assert(found_at(found, places[0]) == Some(p));
            },
            None => {
                match first_found(rest, found) {
                    Some(p) => {
                        let k = choose|k: int|
                            #![trigger rest[k]]
                            0 <= k < rest.len() && found_at(found, rest[k]) == Some(p) && forall|
                                j: int,
                            |
                                0 <= j < k ==> found_at(found, #[trigger] rest[j]) is None;
                        assert(places[k + 1] == rest[k]);
                        assert forall|j: int| 0 <= j < k + 1 implies found_at(
                            found,
                            #[trigger] places[j],
                        ) is None by {
                            if j > 0 {
                                assert(places[j] == rest[j - 1]);
                            }
                        }
                    },
                    None => {
                        assert forall|i: int| 0 <= i < places.len() implies found_at(
                            found,
                            #[trigger] places[i],
                        ) is None by {
                            if i > 0 {
                                assert(places[i] == rest[i - 1]);
                            }
                        }
                    },
                }
            },
        }
    }
}

} // verus!
