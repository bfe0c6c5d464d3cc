//! Team membership lookup.  The engine only reads the roster: it is seeded
//! from the persistent store outside the engine and resolves a submitting
//! user to the team that will be credited.  A user who belongs to no team
//! resolves to nothing, which the verifier surfaces as its own outcome.

use vstd::prelude::*;

verus! {

use crate::text::bytes_eq;

/// One team and its member user identifiers.
pub struct Team {
    pub id: u64,
    pub member_user_ids: Vec<Vec<u8>>,
}

/// The mathematical shape of a team.
pub struct TeamView {
    pub id: u64,
    pub member_user_ids: Seq<Seq<u8>>,
}

impl View for Team {
    type V = TeamView;

    open spec fn view(&self) -> TeamView {
        TeamView {
            id: self.id,
            member_user_ids: self.member_user_ids@.map_values(|m: Vec<u8>| m@),
        }
    }
}

/// The team a user resolves to: the first team in the roster that lists the
/// user as a member, or nothing when no team does.
pub open spec fn team_of_spec(ts: Seq<TeamView>, user: Seq<u8>) -> Option<u64>
    decreases ts.len(),
{
    if ts.len() == 0 {
        None
    } else if ts[0].member_user_ids.contains(user) {
        Some(ts[0].id)
    } else {
        team_of_spec(ts.drop_first(), user)
    }
}

/// The roster of all teams.
pub struct TeamDirectory {
    teams: Vec<Team>,
}

impl View for TeamDirectory {
    type V = Seq<TeamView>;

    closed spec fn view(&self) -> Seq<TeamView> {
        self.teams@.map_values(|t: Team| t@)
    }
}

/// Resolving a user against a suffix of the roster, once no earlier team
/// lists the user, resolves the whole roster.
proof fn lemma_team_of_skip(ts: Seq<TeamView>, user: Seq<u8>, i: int)
    requires
        0 <= i <= ts.len(),
        forall|k: int| 0 <= k < i ==> !(#[trigger] ts[k]).member_user_ids.contains(user),
    ensures
        team_of_spec(ts, user) == team_of_spec(ts.skip(i), user),
    decreases i,
{
    if i > 0 {
        lemma_team_of_skip(ts, user, i - 1);
        assert(ts.skip(i - 1).len() > 0);
        assert(ts.skip(i - 1)[0] == ts[i - 1]);
        assert(ts.skip(i - 1).drop_first() =~= ts.skip(i));
        assert(team_of_spec(ts.skip(i - 1), user) == team_of_spec(ts.skip(i), user));
    } else {
        assert(ts.skip(0) =~= ts);
    }
}

impl TeamDirectory {
    /// An empty roster.
    pub fn new() -> (r: Self)
        ensures
            r@ =~= Seq::<TeamView>::empty(),
    {
        TeamDirectory { teams: Vec::new() }
    }

    /// Add a team to the roster.
    pub fn add_team_entry(&mut self, t: Team)
        ensures
            final(self)@ == old(self)@.push(t@),
    {
        let ghost before = self@;
        self.teams.push(t);
        proof {
            assert(self@ =~= before.push(self.teams@[self.teams@.len() - 1]@));
        }
    }

    /// The team the user belongs to, or `None` when the user is unaffiliated.
    pub fn team_of(&self, user: &Vec<u8>) -> (r: Option<u64>)
        ensures
            r == team_of_spec(self@, user@),
    {
        let n: usize = self.teams.len();
        let mut i: usize = 0;
        while i < n
            invariant
                0 <= i <= n,
                n == self@.len(),
                forall|k: int|
                    0 <= k < i ==> !(#[trigger] self@[k]).member_user_ids.contains(user@),
            decreases n - i,
        {
            let members: &Vec<Vec<u8>> = &self.teams[i].member_user_ids;
            let mn: usize = members.len();
            let mut j: usize = 0;
            let mut hit: bool = false;
            while j < mn && !hit
                invariant
                    0 <= j <= mn,
                    i < n,
                    n == self@.len(),
                    mn == members@.len(),
                    self@[i as int].member_user_ids == members@.map_values(|m: Vec<u8>| m@),
                    hit ==> j > 0 && self@[i as int].member_user_ids[j - 1] == user@,
                    !hit ==> forall|m: int|
                        0 <= m < j ==> self@[i as int].member_user_ids[m] != user@,
                decreases mn - j,
            {
                if bytes_eq(&members[j], user) {
                    hit = true;
                }
                j = j + 1;
            }
            if hit {
                proof {
                    lemma_team_of_skip(self@, user@, i as int);
                    assert(self@.skip(i as int)[0] == self@[i as int]);
                }
                return Some(self.teams[i].id);
            }
            proof {
                assert(!self@[i as int].member_user_ids.contains(user@));
            }
            i = i + 1;
        }
        proof {
            lemma_team_of_skip(self@, user@, n as int);
        }
        None
    }
}

} // verus!
