//! The reconciliation planner: given a member's stored record, a fresh
//! rating snapshot, the registry's answers and the member's current
//! roles, it persists the snapshot and computes the minimal role delta
//! and a per-category comparison. The network calls that fetch ratings
//! and apply role changes live outside the library; ratings are always
//! persisted before any role mutation is attempted.

use crate::bot::role_manager::{range_matches_ratings, RoleManager};
use crate::lichess::format::Format;
use crate::models::user::{User, UserStore};
use crate::ratings::{rating_of, Ratings};
use vstd::prelude::*;

verus! {

/// How one category's rating moved between two snapshots.
#[derive(Debug, Clone, Copy, PartialEq, Eq, Structural)]
pub enum RatingChange {
    Unchanged,
    Improved,
    Declined,
    NewlyRated,
    LostRating,
    NeverRated,
}

/// Classifies one category's move between snapshots.
pub open spec fn classify_spec(old_rating: Option<i16>, new_rating: Option<i16>) -> RatingChange {
    match (old_rating, new_rating) {
        (Some(o), Some(n)) => if o == n {
            RatingChange::Unchanged
        } else if o < n {
            RatingChange::Improved
        } else {
            RatingChange::Declined
        },
        (None, Some(_)) => RatingChange::NewlyRated,
        (Some(_), None) => RatingChange::LostRating,
        (None, None) => RatingChange::NeverRated,
    }
}

/// Classifies one category's move between snapshots.
pub fn classify(old_rating: Option<i16>, new_rating: Option<i16>) -> (r: RatingChange)
    ensures
        r == classify_spec(old_rating, new_rating),
{
    match (old_rating, new_rating) {
        (Some(o), Some(n)) => if o == n {
            RatingChange::Unchanged
        } else if o < n {
            RatingChange::Improved
        } else {
            RatingChange::Declined
        },
        (None, Some(_)) => RatingChange::NewlyRated,
        (Some(_), None) => RatingChange::LostRating,
        (None, None) => RatingChange::NeverRated,
    }
}

/// The full per-category comparison, in the fixed category order.
pub open spec fn report_spec(old_ratings: Ratings, new_ratings: Ratings) -> Seq<
    (Format, RatingChange),
> {
    seq![
        (
            Format::Blitz,
            classify_spec(
                rating_of(old_ratings, Format::Blitz),
                rating_of(new_ratings, Format::Blitz),
            ),
        ),
        (
            Format::Bullet,
            classify_spec(
                rating_of(old_ratings, Format::Bullet),
                rating_of(new_ratings, Format::Bullet),
            ),
        ),
        (
            Format::Classical,
            classify_spec(
                rating_of(old_ratings, Format::Classical),
                rating_of(new_ratings, Format::Classical),
            ),
        ),
        (
            Format::Rapid,
            classify_spec(
                rating_of(old_ratings, Format::Rapid),
                rating_of(new_ratings, Format::Rapid),
            ),
        ),
    ]
}

/// Builds the per-category comparison between two snapshots.
pub fn rating_report(old_ratings: &Ratings, new_ratings: &Ratings) -> (r: Vec<
    (Format, RatingChange),
>)
    ensures
        r@ == report_spec(*old_ratings, *new_ratings),
{
    let mut out: Vec<(Format, RatingChange)> = Vec::new();
    out.push((Format::Blitz, classify(old_ratings.get(Format::Blitz), new_ratings.get(Format::Blitz))));
    out.push(
        (Format::Bullet, classify(old_ratings.get(Format::Bullet), new_ratings.get(Format::Bullet))),
    );
    out.push(
        (
            Format::Classical,
            classify(old_ratings.get(Format::Classical), new_ratings.get(Format::Classical)),
        ),
    );
    out.push((Format::Rapid, classify(old_ratings.get(Format::Rapid), new_ratings.get(Format::Rapid))));
    proof {
        assert(out@ =~= report_spec(*old_ratings, *new_ratings));
    }
    out
}

fn vec_contains_u64(v: &Vec<u64>, x: u64) -> (r: bool)
    ensures
        r == v@.contains(x),
{
    let n = v.len();
    let mut i: usize = 0;
    while i < n
        invariant
            i <= n,
            n == v@.len(),
            forall|j: int| 0 <= j < i ==> v@[j] != x,
        decreases n - i,
    {
        if v[i] == x {
            proof {
                assert(v@[i as int] == x);
            }
            return true;
        }
        i = i + 1;
    }
    false
}

/// The role mutations one reconciliation asks for.
#[derive(Debug, Clone)]
pub struct RolePlan {
    pub to_add: Vec<u64>,
    pub to_remove: Vec<u64>,
}

/// Computes the role delta: grant the target roles the member lacks,
/// revoke the removable roles the member holds. Each id appears at most
/// once per list.
pub fn plan_role_changes(target: &Vec<u64>, removable: &Vec<u64>, current: &Vec<u64>) -> (plan:
    RolePlan)
    ensures
        forall|id: u64|
            #[trigger] plan.to_add@.contains(id) <==> (target@.contains(id) && !current@.contains(
                id,
            )),
        forall|id: u64|
            #[trigger] plan.to_remove@.contains(id) <==> (removable@.contains(id)
                && current@.contains(id)),
        forall|i: int, j: int| 0 <= i < j < plan.to_add@.len() ==> plan.to_add@[i] != plan.to_add@[j],
        forall|i: int, j: int|
            0 <= i < j < plan.to_remove@.len() ==> plan.to_remove@[i] != plan.to_remove@[j],
{
    let to_add = select_ids(target, current, false);
    let to_remove = select_ids(removable, current, true);
    RolePlan { to_add, to_remove }
}

/// The ids of `source` whose membership in `current` equals `keep_held`,
/// first occurrence each.
fn select_ids(source: &Vec<u64>, current: &Vec<u64>, keep_held: bool) -> (r: Vec<u64>)
    ensures
        forall|id: u64|
            #[trigger] r@.contains(id) <==> (source@.contains(id) && current@.contains(id)
                == keep_held),
        forall|i: int, j: int| 0 <= i < j < r@.len() ==> r@[i] != r@[j],
{
    let n = source.len();
    let mut out: Vec<u64> = Vec::new();
    let mut i: usize = 0;
    while i < n
        invariant
            i <= n,
            n == source@.len(),
            forall|k: int, l: int| 0 <= k < l < out@.len() ==> out@[k] != out@[l],
            forall|id: u64|
                #[trigger] out@.contains(id) <==> (source@.take(i as int).contains(id)
                    && current@.contains(id) == keep_held),
        decreases n - i,
    {
        let id = source[i];
        proof {
            assert forall|x: u64| source@.take(i + 1 as int).contains(x) implies source@.take(
                i as int,
            ).contains(x) || x == source@[i as int] by {
                let k = choose|k: int|
                    0 <= k < i + 1 && #[trigger] source@.take(i + 1 as int)[k] == x;
                if k < i {
                    assert(source@.take(i as int)[k] == x);
                }
            }
            assert forall|x: u64| source@.take(i as int).contains(x)
                implies #[trigger] source@.take(i + 1 as int).contains(x) by {
                let k = choose|k: int| 0 <= k < i && #[trigger] source@.take(i as int)[k] == x;
                assert(source@.take(i + 1 as int)[k] == x);
            }
            assert(source@.take(i + 1 as int)[i as int] == source@[i as int]);
        }
        if vec_contains_u64(current, id) == keep_held && !vec_contains_u64(&out, id) {
            let ghost old_out = out@;
            out.push(id);
            proof {
                assert forall|x: u64| #[trigger] out@.contains(x) implies old_out.contains(x) || x
                    == id by {
                    let k = choose|k: int| 0 <= k < out@.len() && out@[k] == x;
                    if k < old_out.len() {
                        assert(old_out[k] == x);
                    }
                }
                assert forall|x: u64| old_out.contains(x) implies #[trigger] out@.contains(x) by {
                    let k = choose|k: int| 0 <= k < old_out.len() && old_out[k] == x;
                    assert(out@[k] == x);
                }
                assert(out@.contains(id)) by {
                    assert(out@[out@.len() - 1] == id);
                }
                assert forall|k: int, l: int| 0 <= k < l < out@.len() implies out@[k]
                    != out@[l] by {
                    assert(out@[k] == old_out[k]);
                    if l == out@.len() - 1 {
                        assert(old_out.contains(old_out[k]));
                    } else {
                        assert(out@[l] == old_out[l]);
                    }
                }
            }
        }
        i = i + 1;
    }
    proof {
        assert(source@.take(n as int) =~= source@);
    }
    out
}

/// The ids whose mutation succeeded; used to report only what was
/// actually applied when individual role mutations fail.
pub open spec fn applied_ids(ids: Seq<u64>, succeeded: Seq<bool>) -> Seq<u64>
    decreases ids.len(),
{
    if ids.len() == 0 || ids.len() != succeeded.len() {
        Seq::empty()
    } else {
        applied_ids(ids.drop_last(), succeeded.drop_last()) + if succeeded.last() {
            seq![ids.last()]
        } else {
            Seq::empty()
        }
    }
}

/// Keeps the ids whose individual mutation succeeded, in order. One
/// failing mutation is excluded from the report without aborting the
/// rest.
pub fn filter_applied(ids: &Vec<u64>, succeeded: &Vec<bool>) -> (r: Vec<u64>)
    requires
        ids@.len() == succeeded@.len(),
    ensures
        r@ == applied_ids(ids@, succeeded@),
{
    let n = ids.len();
    let mut out: Vec<u64> = Vec::new();
    let mut i: usize = 0;
    while i < n
        invariant
            i <= n,
            n == ids@.len(),
            n == succeeded@.len(),
            out@ =~= applied_ids(ids@.take(i as int), succeeded@.take(i as int)),
        decreases n - i,
    {
        proof {
            assert(ids@.take(i + 1 as int).drop_last() =~= ids@.take(i as int));
            assert(succeeded@.take(i + 1 as int).drop_last() =~= succeeded@.take(i as int));
            assert(ids@.take(i + 1 as int).last() == ids@[i as int]);
            assert(succeeded@.take(i + 1 as int).last() == succeeded@[i as int]);
        }
        if succeeded[i] {
            out.push(ids[i]);
        }
        i = i + 1;
    }
    proof {
        assert(ids@.take(n as int) =~= ids@);
        assert(succeeded@.take(n as int) =~= succeeded@);
    }
    out
}

/// Step one of a reconciliation: load the member's record. `None` means
/// not linked: the caller reports that and makes no further call; in
/// particular no role is touched. `Some` carries the username whose
/// ratings are to be fetched.
pub fn begin_reconcile(users: &UserStore, guild_id: u64, discord_id: u64) -> (r: Option<String>)
    requires
        users.wf(),
    ensures
        match r {
            Some(name) => users.record_for(guild_id, discord_id) is Some && name@ == users.record_for(
                guild_id,
                discord_id,
            )->0.lichess_username@,
            None => users.record_for(guild_id, discord_id) is None,
        },
{
    match users.find(guild_id, discord_id) {
        Some(u) => Some(u.lichess_username),
        None => None,
    }
}

/// Everything one reconciliation decides: the role delta and the
/// per-category comparison against the previously stored snapshot.
#[derive(Debug, Clone)]
pub struct ReconcilePlan {
    pub to_add: Vec<u64>,
    pub to_remove: Vec<u64>,
    pub report: Vec<(Format, RatingChange)>,
}

/// Whether the registry grants `id` to this snapshot in this community.
pub open spec fn snapshot_earns(rm: RoleManager, guild_id: u64, id: u64, ra: Ratings) -> bool {
    &&& rm.range_for(guild_id, id) is Some
    &&& range_matches_ratings(rm.range_for(guild_id, id)->0, ra)
}

/// Step two of a reconciliation, after the fresh snapshot was fetched:
/// persists it into the member's record — before any role mutation is
/// attempted — and computes the role delta and the per-category
/// comparison. `None` means the record vanished (not linked): nothing
/// is touched.
pub fn finish_reconcile(
    users: &mut UserStore,
    registry: &RoleManager,
    guild_id: u64,
    discord_id: u64,
    new_ratings: Ratings,
    current_roles: &Vec<u64>,
) -> (r: Option<ReconcilePlan>)
    requires
        old(users).wf(),
        registry.wf(),
    ensures
        final(users).wf(),
        match r {
            None => {
                &&& old(users).record_for(guild_id, discord_id) is None
                &&& *final(users) == *old(users)
            },
            Some(plan) => {
                let rec = old(users).record_for(guild_id, discord_id)->0;
                &&& old(users).record_for(guild_id, discord_id) is Some
                &&& final(users).record_for(guild_id, discord_id) == Some(
                    User { ratings: new_ratings, ..rec },
                )
                &&& forall|g: u64, d: u64|
                    !(g == guild_id && d == discord_id) ==> final(users).record_for(g, d) == old(
                        users,
                    ).record_for(g, d)
                &&& forall|id: u64|
                    #[trigger] plan.to_add@.contains(id) <==> (snapshot_earns(
                        *registry,
                        guild_id,
                        id,
                        new_ratings,
                    ) && !current_roles@.contains(id))
                &&& forall|id: u64|
                    #[trigger] plan.to_remove@.contains(id) <==> (registry.has_role(guild_id, id)
                        && !snapshot_earns(*registry, guild_id, id, new_ratings)
                        && current_roles@.contains(id))
                &&& forall|i: int, j: int|
                    0 <= i < j < plan.to_add@.len() ==> plan.to_add@[i] != plan.to_add@[j]
                &&& forall|i: int, j: int|
                    0 <= i < j < plan.to_remove@.len() ==> plan.to_remove@[i] != plan.to_remove@[j]
                &&& plan.report@ == report_spec(rec.ratings, new_ratings)
            },
        },
{
    let found = users.find(guild_id, discord_id);
    match found {
        None => None,
        Some(user) => {
            proof {
                crate::models::user::lemma_user_for_key(old(users).users@, guild_id, discord_id);
            }
            let old_ratings = user.get_ratings();
            let mut updated = user;
            updated.update_ratings(new_ratings);
            users.save(updated);
            let target = registry.find_rating_range_roles(guild_id, &new_ratings);
            let removable = registry.other_rating_range_roles(guild_id, target.as_slice());
            let plan = plan_role_changes(&target, &removable, current_roles);
            let report = rating_report(&old_ratings, &new_ratings);
            Some(ReconcilePlan { to_add: plan.to_add, to_remove: plan.to_remove, report })
        },
    }
}

/// Law: a member whose fresh snapshot leaves one band for another is
/// granted exactly the new band's role and stripped of exactly the old
/// one. With a registry holding the two band roles, a snapshot that
/// earns only the new role, and a member currently holding only the old
/// one, the delta a reconciliation computes (as `finish_reconcile`
/// promises it) is `to_add = {new}` and `to_remove = {old}`.
pub proof fn lemma_band_change_swaps_roles(
    rm: RoleManager,
    guild_id: u64,
    old_role: u64,
    new_role: u64,
    ra: Ratings,
    current: Seq<u64>,
    to_add: Seq<u64>,
    to_remove: Seq<u64>,
)
    requires
        rm.has_role(guild_id, old_role),
        !snapshot_earns(rm, guild_id, old_role, ra),
        snapshot_earns(rm, guild_id, new_role, ra),
        forall|id: u64| rm.has_role(guild_id, id) ==> id == old_role || id == new_role,
        current.contains(old_role),
        !current.contains(new_role),
        forall|id: u64|
            #[trigger] to_add.contains(id) <==> (snapshot_earns(rm, guild_id, id, ra)
                && !current.contains(id)),
        forall|id: u64|
            #[trigger] to_remove.contains(id) <==> (rm.has_role(guild_id, id) && !snapshot_earns(
                rm,
                guild_id,
                id,
                ra,
            ) && current.contains(id)),
    ensures
        forall|id: u64| #[trigger] to_add.contains(id) <==> id == new_role,
        forall|id: u64| #[trigger] to_remove.contains(id) <==> id == old_role,
{
    assert forall|id: u64| #[trigger] to_add.contains(id) implies id == new_role by {
        assert(rm.has_role(guild_id, id));
    }
    assert forall|id: u64| #[trigger] to_remove.contains(id) implies id == old_role by {
        assert(rm.has_role(guild_id, id));
    }
}

/// The registry roles to strip when a member unlinks: every rating-band
/// role of the community the member currently holds. Each id appears at
/// most once.
pub fn unlink_role_removals(registry: &RoleManager, guild_id: u64, current_roles: &Vec<u64>) -> (r:
    Vec<u64>)
    requires
        registry.wf(),
    ensures
        forall|id: u64|
            #[trigger] r@.contains(id) <==> (registry.has_role(guild_id, id)
                && current_roles@.contains(id)),
        forall|i: int, j: int| 0 <= i < j < r@.len() ==> r@[i] != r@[j],
{
    let none: [u64; 0] = [];
    let all = registry.other_rating_range_roles(guild_id, &none);
    let plan = select_ids(&all, current_roles, true);
    plan
}

} // verus!
