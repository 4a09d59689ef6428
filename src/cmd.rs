//! Selection of the club whose microsite pages are wanted.

use vstd::prelude::*;
use crate::bindings::ClubMicrosite;

verus! {

/// Why no club was selected.
#[derive(Debug, Clone, Copy, PartialEq, Eq, Structural)]
pub enum SelectError {
    /// No club with this business number has a microsite.
    ClubNotFound(i64),
    /// No club with this entity identity has a microsite.
    NidNotFound(u64),
    /// Neither a business number nor an identity was given.
    NoSelector,
}

/// The selector of a club: by business number, or by entity identity.
pub struct PagesCmd {
    /// Club number (regular clubs).
    pub club: Option<i64>,
    /// Club entity identity (intraclubs, or any club).
    pub nid: Option<u64>,
}

/// The first binding whose business number is `n`.
pub open spec fn first_with_number(clubs: Seq<ClubMicrosite>, n: i64) -> Option<int>
    decreases clubs.len(),
{
    if clubs.len() == 0 {
        None
    } else {
        match first_with_number(clubs.drop_last(), n) {
            Some(k) => Some(k),
            None => if clubs.last().club_number == Some(n) {
                Some(clubs.len() - 1)
            } else {
                None
            },
        }
    }
}

/// The first binding of the club with identity `nid`.
pub open spec fn first_with_nid(clubs: Seq<ClubMicrosite>, nid: u64) -> Option<int>
    decreases clubs.len(),
{
    if clubs.len() == 0 {
        None
    } else {
        match first_with_nid(clubs.drop_last(), nid) {
            Some(k) => Some(k),
            None => if clubs.last().club_nid == nid {
                Some(clubs.len() - 1)
            } else {
                None
            },
        }
    }
}

/// What the selection gives: the business number is tried first, then the identity.
pub open spec fn selection(cmd: PagesCmd, clubs: Seq<ClubMicrosite>) -> Result<int, SelectError> {
    match cmd.club {
        Some(n) => match first_with_number(clubs, n) {
            Some(k) => Ok(k),
            None => Err(SelectError::ClubNotFound(n)),
        },
        None => match cmd.nid {
            Some(nid) => match first_with_nid(clubs, nid) {
                Some(k) => Ok(k),
                None => Err(SelectError::NidNotFound(nid)),
            },
            None => Err(SelectError::NoSelector),
        },
    }
}

proof fn lemma_number_prefix(clubs: Seq<ClubMicrosite>, n: i64, m: int)
    requires
        0 <= m <= clubs.len(),
        first_with_number(clubs.subrange(0, m), n) is Some,
    ensures
        first_with_number(clubs, n) == first_with_number(clubs.subrange(0, m), n),
    decreases clubs.len() - m,
{
    if m < clubs.len() {
        assert(clubs.subrange(0, m + 1).drop_last() =~= clubs.subrange(0, m));
        lemma_number_prefix(clubs, n, m + 1);
    } else {
        assert(clubs.subrange(0, m) =~= clubs);
    }
}

proof fn lemma_nid_prefix(clubs: Seq<ClubMicrosite>, nid: u64, m: int)
    requires
        0 <= m <= clubs.len(),
        first_with_nid(clubs.subrange(0, m), nid) is Some,
    ensures
        first_with_nid(clubs, nid) == first_with_nid(clubs.subrange(0, m), nid),
    decreases clubs.len() - m,
{
    if m < clubs.len() {
        assert(clubs.subrange(0, m + 1).drop_last() =~= clubs.subrange(0, m));
        lemma_nid_prefix(clubs, nid, m + 1);
    } else {
        assert(clubs.subrange(0, m) =~= clubs);
    }
}

fn find_by_number(clubs: &Vec<ClubMicrosite>, n: i64) -> (r: Option<usize>)
    ensures
        r matches Some(k) ==> first_with_number(clubs@, n) == Some(k as int) && k < clubs@.len(),
        r is None ==> first_with_number(clubs@, n) is None,
{
    let mut i: usize = 0;
    while i < clubs.len()
        invariant
            i <= clubs@.len(),
            first_with_number(clubs@.subrange(0, i as int), n) is None,
        decreases clubs@.len() - i,
    {
        assert(clubs@.subrange(0, i + 1).drop_last() =~= clubs@.subrange(0, i as int));
        let hit = match clubs[i].club_number {
            Some(v) => v == n,
            None => false,
        };
        if hit {
            proof {
                lemma_number_prefix(clubs@, n, i + 1);
            }
            return Some(i);
        }
        i = i + 1;
    }
    assert(clubs@.subrange(0, clubs@.len() as int) =~= clubs@);
    None
}

fn find_by_nid(clubs: &Vec<ClubMicrosite>, nid: u64) -> (r: Option<usize>)
    ensures
        r matches Some(k) ==> first_with_nid(clubs@, nid) == Some(k as int) && k < clubs@.len(),
        r is None ==> first_with_nid(clubs@, nid) is None,
{
    let mut i: usize = 0;
    while i < clubs.len()
        invariant
            i <= clubs@.len(),
            first_with_nid(clubs@.subrange(0, i as int), nid) is None,
        decreases clubs@.len() - i,
    {
        assert(clubs@.subrange(0, i + 1).drop_last() =~= clubs@.subrange(0, i as int));
        if clubs[i].club_nid == nid {
            proof {
                lemma_nid_prefix(clubs@, nid, i + 1);
            }
            return Some(i);
        }
        i = i + 1;
    }
    assert(clubs@.subrange(0, clubs@.len() as int) =~= clubs@);
    None
}

impl PagesCmd {
    /// The position of the selected club's binding: the first with the given
    /// business number if one is given, else the first with the given identity.
    pub fn select_club(&self, clubs: &Vec<ClubMicrosite>) -> (r: Result<usize, SelectError>)
        ensures
            match r {
                Ok(k) => selection(*self, clubs@) == Ok::<int, SelectError>(k as int) && k < clubs@.len(),
                Err(e) => selection(*self, clubs@) == Err::<int, SelectError>(e),
            },
    {
        match self.club {
            Some(n) => match find_by_number(clubs, n) {
                Some(k) => Ok(k),
                None => Err(SelectError::ClubNotFound(n)),
            },
            None => match self.nid {
                Some(nid) => match find_by_nid(clubs, nid) {
                    Some(k) => Ok(k),
                    None => Err(SelectError::NidNotFound(nid)),
                },
                None => Err(SelectError::NoSelector),
            },
        }
    }
}

} // verus!
