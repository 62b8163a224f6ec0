//! Planning a Steam library synchronisation: which manifest games are inserted or
//! updated, which owned games are added, and which stored games are marked as no
//! longer installed.
use vstd::prelude::*;
use crate::steam::acf_parser::AcfGame;

verus! {

broadcast use vstd::seq_lib::group_seq_properties;

/// A manifest's `StateFlags` of a fully installed game (4, or 6 while updating).
pub open spec fn installed_flags(flags: u32) -> bool {
    flags == 4 || flags == 6
}

/// Whether `StateFlags` marks a fully installed game.
pub fn is_fully_installed(state_flags: u32) -> (b: bool)
    ensures
        b == installed_flags(state_flags),
{
    state_flags == 4 || state_flags == 6
}

/// A manifest counts as fully installed exactly when its `StateFlags` has the
/// fully-installed bit (4) and no bit but that and update-required (2): 4 or 6. Any
/// other state (uninstalled, update started, files missing, ...) is not installed.
pub proof fn law_installed_flags(flags: u32)
    ensures
        installed_flags(flags) <==> (flags & 4 == 4 && flags & !6u32 == 0),
{
    assert((flags == 4 || flags == 6) <==> (flags & 4 == 4 && flags & !6u32 == 0)) by (bit_vector);
}

/// One database change of a synchronisation.
#[derive(Debug, Clone, Copy, PartialEq, Eq, Structural)]
pub enum SyncAction {
    /// The game of manifest `index` is stored already: refresh it.
    UpdateFromManifest { index: usize, installed: bool },
    /// The game of manifest `index` is new: insert it.
    InsertFromManifest { index: usize, installed: bool },
    /// An owned game that no library holds is new: insert it as not installed.
    InsertOwned { app_id: u32 },
}

/// The changes of a synchronisation, the app ids it has seen, and its counts.
pub struct SyncPlan {
    pub actions: Vec<SyncAction>,
    pub seen_app_ids: Vec<u32>,
    pub added: i64,
    pub updated: i64,
}

/// The planner's state: changes so far, app ids seen, app ids stored (at the start
/// or inserted since), and counts.
pub struct PlanState {
    pub actions: Seq<SyncAction>,
    pub seen: Seq<u32>,
    pub known: Set<u32>,
    pub added: int,
    pub updated: int,
}

pub open spec fn is_removed(removed: Seq<i64>, app_id: u32) -> bool {
    removed.contains(app_id as i64)
}

/// Manifest game `i`: skipped if removed by the user; otherwise seen, and updated
/// when stored, inserted when not.
pub open spec fn manifest_step(st: PlanState, acf: Seq<AcfGame>, i: int, removed: Seq<i64>) -> PlanState {
    let id = acf[i].app_id;
    let installed = installed_flags(acf[i].state_flags);
    if is_removed(removed, id) {
        st
    } else if st.known.contains(id) {
        PlanState {
            actions: st.actions.push(SyncAction::UpdateFromManifest { index: i as usize, installed }),
            seen: st.seen.push(id),
            updated: st.updated + 1,
            ..st
        }
    } else {
        PlanState {
            actions: st.actions.push(SyncAction::InsertFromManifest { index: i as usize, installed }),
            seen: st.seen.push(id),
            known: st.known.insert(id),
            added: st.added + 1,
            ..st
        }
    }
}

/// The plan after the first `n` manifest games.
pub open spec fn plan_manifests(acf: Seq<AcfGame>, removed: Seq<i64>, existing: Set<u32>, n: int) -> PlanState
    decreases n,
{
    if n <= 0 {
        PlanState { actions: seq![], seen: seq![], known: existing, added: 0, updated: 0 }
    } else {
        manifest_step(plan_manifests(acf, removed, existing, n - 1), acf, n - 1, removed)
    }
}

/// Owned game `id`: skipped if removed or already seen; otherwise seen, and inserted
/// when not stored.
pub open spec fn owned_step(st: PlanState, id: u32, removed: Seq<i64>) -> PlanState {
    if is_removed(removed, id) || st.seen.contains(id) {
        st
    } else if st.known.contains(id) {
        PlanState { seen: st.seen.push(id), ..st }
    } else {
        PlanState {
            actions: st.actions.push(SyncAction::InsertOwned { app_id: id }),
            seen: st.seen.push(id),
            known: st.known.insert(id),
            added: st.added + 1,
            ..st
        }
    }
}

/// The plan after the first `m` owned games.
pub open spec fn plan_owned(start: PlanState, api: Seq<u32>, removed: Seq<i64>, m: int) -> PlanState
    decreases m,
{
    if m <= 0 {
        start
    } else {
        owned_step(plan_owned(start, api, removed, m - 1), api[m - 1], removed)
    }
}

pub open spec fn as_set(s: Seq<u32>) -> Set<u32> {
    Set::new(|x: u32| s.contains(x))
}

/// The whole plan: the manifest games in order, then the owned games in order.
pub open spec fn sync_plan(acf: Seq<AcfGame>, api: Seq<u32>, removed: Seq<i64>, existing: Seq<u32>) -> PlanState {
    plan_owned(plan_manifests(acf, removed, as_set(existing), acf.len() as int), api, removed, api.len() as int)
}

fn contains_u32(v: &Vec<u32>, x: u32) -> (b: bool)
    ensures
        b == v@.contains(x),
{
    let mut i: usize = 0;
    while i < v.len()
        invariant
            i <= v.len(),
            forall|j: int| 0 <= j < i ==> v@[j] != x,
        decreases v.len() - i,
    {
        if v[i] == x {
            return true;
        }
        i += 1;
    }
    false
}

fn contains_i64(v: &Vec<i64>, x: i64) -> (b: bool)
    ensures
        b == v@.contains(x),
{
    let mut i: usize = 0;
    while i < v.len()
        invariant
            i <= v.len(),
            forall|j: int| 0 <= j < i ==> v@[j] != x,
        decreases v.len() - i,
    {
        if v[i] == x {
            return true;
        }
        i += 1;
    }
    false
}

/// Plans the changes of a synchronisation from the installed games found in the
/// manifests, the owned app ids reported by the Web API, the app ids the user
/// removed, and the app ids whose `steam_<id>` record is stored already.
pub fn plan_steam_sync(
    acf_games: &Vec<AcfGame>,
    api_app_ids: &Vec<u32>,
    removed_app_ids: &Vec<i64>,
    existing_app_ids: &Vec<u32>,
) -> (plan: SyncPlan)
    requires
        acf_games.len() + api_app_ids.len() <= 0x7fff_ffff_ffff_ffff,
    ensures
        ({
            let p = sync_plan(acf_games@, api_app_ids@, removed_app_ids@, existing_app_ids@);
            &&& plan.actions@ == p.actions
            &&& plan.seen_app_ids@ == p.seen
            &&& plan.added == p.added
            &&& plan.updated == p.updated
        }),
{
    let ghost existing = as_set(existing_app_ids@);
    let mut actions: Vec<SyncAction> = Vec::new();
    let mut seen: Vec<u32> = Vec::new();
    let mut known: Vec<u32> = existing_app_ids.clone();
    let mut added: i64 = 0;
    let mut updated: i64 = 0;
    let mut i: usize = 0;
    while i < acf_games.len()
        invariant
            i <= acf_games.len(),
            acf_games.len() + api_app_ids.len() <= 0x7fff_ffff_ffff_ffff,
            existing == as_set(existing_app_ids@),
            0 <= added + updated <= i,
            added >= 0,
            updated >= 0,
            ({
                let st = plan_manifests(acf_games@, removed_app_ids@, existing, i as int);
                &&& actions@ == st.actions
                &&& seen@ == st.seen
                &&& forall|x: u32| known@.contains(x) <==> st.known.contains(x)
                &&& added == st.added
                &&& updated == st.updated
            }),
        decreases acf_games.len() - i,
    {
        let id = acf_games[i].app_id;
        let installed = is_fully_installed(acf_games[i].state_flags);
        let ghost st0 = plan_manifests(acf_games@, removed_app_ids@, existing, i as int);
        assert(plan_manifests(acf_games@, removed_app_ids@, existing, i + 1) == manifest_step(
            st0,
            acf_games@,
            i as int,
            removed_app_ids@,
        ));
        let ghost known0 = known@;
        if contains_i64(removed_app_ids, id as i64) {
        } else if contains_u32(&known, id) {
            actions.push(SyncAction::UpdateFromManifest { index: i, installed });
            seen.push(id);
            updated = updated + 1;
        } else {
            actions.push(SyncAction::InsertFromManifest { index: i, installed });
            seen.push(id);
            known.push(id);
            added = added + 1;
            assert forall|x: u32| known@.contains(x) <==> st0.known.insert(id).contains(x) by {
                assert(known@ == known0.push(id));
            }
        }
        i += 1;
    }
    let ghost start = plan_manifests(acf_games@, removed_app_ids@, existing, acf_games.len() as int);
    let mut j: usize = 0;
    while j < api_app_ids.len()
        invariant
            j <= api_app_ids.len(),
            acf_games.len() + api_app_ids.len() <= 0x7fff_ffff_ffff_ffff,
            added >= 0,
            updated >= 0,
            added + updated <= acf_games.len() + j,
            start == plan_manifests(acf_games@, removed_app_ids@, as_set(existing_app_ids@), acf_games.len() as int),
            ({
                let st = plan_owned(start, api_app_ids@, removed_app_ids@, j as int);
                &&& actions@ == st.actions
                &&& seen@ == st.seen
                &&& forall|x: u32| known@.contains(x) <==> st.known.contains(x)
                &&& added == st.added
                &&& updated == st.updated
            }),
        decreases api_app_ids.len() - j,
    {
        let id = api_app_ids[j];
        let ghost st0 = plan_owned(start, api_app_ids@, removed_app_ids@, j as int);
        assert(plan_owned(start, api_app_ids@, removed_app_ids@, j + 1) == owned_step(
            st0,
            api_app_ids@[j as int],
            removed_app_ids@,
        ));
        let ghost known0 = known@;
        if contains_i64(removed_app_ids, id as i64) || contains_u32(&seen, id) {
        } else if contains_u32(&known, id) {
            seen.push(id);
        } else {
            actions.push(SyncAction::InsertOwned { app_id: id });
            seen.push(id);
            known.push(id);
            added = added + 1;
            assert forall|x: u32| known@.contains(x) <==> st0.known.insert(id).contains(x) by {
                assert(known@ == known0.push(id));
            }
        }
        j += 1;
    }
    SyncPlan { actions, seen_app_ids: seen, added, updated }
}


/// The app id that a change concerns.
pub open spec fn action_app_id(a: SyncAction, acf: Seq<AcfGame>) -> u32 {
    match a {
        SyncAction::UpdateFromManifest { index, .. } => acf[index as int].app_id,
        SyncAction::InsertFromManifest { index, .. } => acf[index as int].app_id,
        SyncAction::InsertOwned { app_id } => app_id,
    }
}

pub open spec fn is_insert(a: SyncAction) -> bool {
    !(a is UpdateFromManifest)
}

/// The manifest a change comes from, if it comes from one.
pub open spec fn manifest_index(a: SyncAction) -> Option<usize> {
    match a {
        SyncAction::UpdateFromManifest { index, .. } => Some(index),
        SyncAction::InsertFromManifest { index, .. } => Some(index),
        SyncAction::InsertOwned { .. } => None,
    }
}

pub open spec fn count_inserts(s: Seq<SyncAction>) -> int
    decreases s.len(),
{
    if s.len() == 0 {
        0
    } else {
        count_inserts(s.drop_last()) + if is_insert(s.last()) {
            1int
        } else {
            0int
        }
    }
}

pub open spec fn count_updates(s: Seq<SyncAction>) -> int
    decreases s.len(),
{
    if s.len() == 0 {
        0
    } else {
        count_updates(s.drop_last()) + if is_insert(s.last()) {
            0int
        } else {
            1int
        }
    }
}

/// What holds of the planner's state after `n` manifest games and `m` owned games.
pub open spec fn plan_inv(
    st: PlanState,
    acf: Seq<AcfGame>,
    api: Seq<u32>,
    removed: Seq<i64>,
    existing: Set<u32>,
    n: int,
    m: int,
) -> bool {
    let acts = st.actions;
    &&& 0 <= n <= acf.len()
    &&& 0 <= m <= api.len()
    &&& forall|k: int| 0 <= k < acts.len() ==> (#[trigger] manifest_index(acts[k]) matches Some(i) ==> i < n)
    &&& forall|k: int| 0 <= k < acts.len() ==> !is_removed(removed, #[trigger] action_app_id(acts[k], acf))
    &&& forall|k: int| 0 <= k < acts.len() && is_insert(acts[k]) ==> !existing.contains(#[trigger] action_app_id(acts[k], acf))
    &&& forall|k1: int, k2: int|
        0 <= k1 < k2 < acts.len() && is_insert(acts[k1]) && is_insert(acts[k2]) ==> #[trigger] action_app_id(acts[k1], acf) != #[trigger] action_app_id(acts[k2], acf)
    &&& forall|x: u32| #[trigger] st.known.contains(x) <==> (existing.contains(x) || exists|k: int|
        0 <= k < acts.len() && is_insert(acts[k]) && #[trigger] action_app_id(acts[k], acf) == x)
    &&& st.added == count_inserts(acts)
    &&& st.updated == count_updates(acts)
    &&& forall|x: u32| #[trigger] st.seen.contains(x) <==> (!is_removed(removed, x) && ((exists|i: int|
        0 <= i < n && #[trigger] acf[i].app_id == x) || (exists|j: int| 0 <= j < m && #[trigger] api[j] == x)))
    &&& forall|k1: int, k2: int|
        0 <= k1 < k2 < acts.len() && #[trigger] manifest_index(acts[k1]) is Some && #[trigger] manifest_index(acts[k2]) is Some
            ==> manifest_index(acts[k1]).unwrap() < manifest_index(acts[k2]).unwrap()
    &&& forall|i: int| 0 <= i < n && !is_removed(removed, #[trigger] acf[i].app_id) ==> exists|k: int|
        0 <= k < acts.len() && #[trigger] manifest_index(acts[k]) == Some(i as usize)
}


proof fn lemma_counts_push(acts: Seq<SyncAction>, a: SyncAction)
    ensures
        count_inserts(acts.push(a)) == count_inserts(acts) + if is_insert(a) {
            1int
        } else {
            0int
        },
        count_updates(acts.push(a)) == count_updates(acts) + if is_insert(a) {
            0int
        } else {
            1int
        },
{
    assert(acts.push(a).drop_last() =~= acts);
}

proof fn lemma_manifest_step(
    st: PlanState,
    acf: Seq<AcfGame>,
    api: Seq<u32>,
    removed: Seq<i64>,
    existing: Set<u32>,
    n: int,
)
    requires
        plan_inv(st, acf, api, removed, existing, n, 0),
        n < acf.len(),
        acf.len() <= usize::MAX,
    ensures
        plan_inv(manifest_step(st, acf, n, removed), acf, api, removed, existing, n + 1, 0),
{
    let id = acf[n].app_id;
    let installed = installed_flags(acf[n].state_flags);
    let st2 = manifest_step(st, acf, n, removed);
    let acts = st.actions;
    let acts2 = st2.actions;
    if is_removed(removed, id) {
        assert forall|x: u32| #[trigger] st2.seen.contains(x) <==> (!is_removed(removed, x) && ((
        exists|i: int| 0 <= i < n + 1 && #[trigger] acf[i].app_id == x) || (exists|j: int|
            0 <= j < 0 && #[trigger] api[j] == x))) by {
            if exists|i: int| 0 <= i < n + 1 && #[trigger] acf[i].app_id == x {
                let i = choose|i: int| 0 <= i < n + 1 && #[trigger] acf[i].app_id == x;
                if i < n {
                } else {
                    assert(x == id);
                }
            }
        }
    } else {
        let a = if st.known.contains(id) {
            SyncAction::UpdateFromManifest { index: n as usize, installed }
        } else {
            SyncAction::InsertFromManifest { index: n as usize, installed }
        };
        assert(acts2 == acts.push(a));
        assert(action_app_id(a, acf) == id);
        lemma_counts_push(acts, a);
        assert forall|k: int| 0 <= k < acts2.len() implies (#[trigger] manifest_index(acts2[k]) matches Some(
            i,
        ) ==> i < n + 1) by {
            if k < acts.len() {
                assert(acts2[k] == acts[k]);
            }
        }
        assert forall|k: int| 0 <= k < acts2.len() implies !is_removed(
            removed,
            #[trigger] action_app_id(acts2[k], acf),
        ) by {
            if k < acts.len() {
                assert(acts2[k] == acts[k]);
            }
        }
        assert forall|x: u32| #[trigger] st2.known.contains(x) <==> (existing.contains(x) || exists|
            k: int,
        | 0 <= k < acts2.len() && is_insert(acts2[k]) && #[trigger] action_app_id(acts2[k], acf) == x) by {
            if exists|k: int| 0 <= k < acts.len() && is_insert(acts[k]) && #[trigger] action_app_id(acts[k], acf) == x {
                let k = choose|k: int| 0 <= k < acts.len() && is_insert(acts[k]) && #[trigger] action_app_id(acts[k], acf) == x;
                assert(acts2[k] == acts[k]);
            }
            if exists|k: int| 0 <= k < acts2.len() && is_insert(acts2[k]) && #[trigger] action_app_id(acts2[k], acf) == x {
                let k = choose|k: int| 0 <= k < acts2.len() && is_insert(acts2[k]) && #[trigger] action_app_id(acts2[k], acf) == x;
                if k < acts.len() {
                    assert(acts2[k] == acts[k]);
                } else {
                    assert(acts2[k] == a);
                }
            }
            if !st.known.contains(id) {
                assert(acts2[acts.len() as int] == a);
            }
        }
        assert forall|k: int| 0 <= k < acts2.len() && is_insert(acts2[k]) implies !existing.contains(
            #[trigger] action_app_id(acts2[k], acf),
        ) by {
            if k < acts.len() {
                assert(acts2[k] == acts[k]);
            }
        }
        assert forall|k1: int, k2: int|
            0 <= k1 < k2 < acts2.len() && is_insert(acts2[k1]) && is_insert(acts2[k2]) implies #[trigger] action_app_id(
            acts2[k1],
            acf,
        ) != #[trigger] action_app_id(acts2[k2], acf) by {
            assert(acts2[k1] == acts[k1]);
            if k2 < acts.len() {
                assert(acts2[k2] == acts[k2]);
            } else {
                assert(acts2[k2] == a);
                assert(st.known.contains(action_app_id(acts[k1], acf)));
            }
        }
        assert forall|x: u32| #[trigger] st2.seen.contains(x) <==> (!is_removed(removed, x) && ((
        exists|i: int| 0 <= i < n + 1 && #[trigger] acf[i].app_id == x) || (exists|j: int|
            0 <= j < 0 && #[trigger] api[j] == x))) by {
            assert(st2.seen == st.seen.push(id));
            if exists|i: int| 0 <= i < n + 1 && #[trigger] acf[i].app_id == x {
                let i = choose|i: int| 0 <= i < n + 1 && #[trigger] acf[i].app_id == x;
                if i < n {
                } else {
                    assert(x == id);
                }
            }
            if x == id {
                assert(acf[n].app_id == x);
            }
        }
        assert forall|k1: int, k2: int|
            0 <= k1 < k2 < acts2.len() && #[trigger] manifest_index(acts2[k1]) is Some && #[trigger] manifest_index(
                acts2[k2],
            ) is Some implies manifest_index(acts2[k1]).unwrap() < manifest_index(acts2[k2]).unwrap() by {
            assert(acts2[k1] == acts[k1]);
            if k2 < acts.len() {
                assert(acts2[k2] == acts[k2]);
            }
        }
        assert forall|i: int| 0 <= i < n + 1 && !is_removed(removed, #[trigger] acf[i].app_id) implies exists|
            k: int,
        | 0 <= k < acts2.len() && #[trigger] manifest_index(acts2[k]) == Some(i as usize) by {
            if i < n {
                let k = choose|k: int| 0 <= k < acts.len() && #[trigger] manifest_index(acts[k]) == Some(i as usize);
                assert(acts2[k] == acts[k]);
            } else {
                assert(manifest_index(acts2[acts.len() as int]) == Some(i as usize));
            }
        }
    }
}

/// The invariant holds after any number of manifest games.
proof fn lemma_plan_manifests(
    acf: Seq<AcfGame>,
    api: Seq<u32>,
    removed: Seq<i64>,
    existing: Set<u32>,
    n: int,
)
    requires
        0 <= n <= acf.len(),
        acf.len() <= usize::MAX,
    ensures
        plan_inv(plan_manifests(acf, removed, existing, n), acf, api, removed, existing, n, 0),
    decreases n,
{
    if n > 0 {
        lemma_plan_manifests(acf, api, removed, existing, n - 1);
        lemma_manifest_step(plan_manifests(acf, removed, existing, n - 1), acf, api, removed, existing, n - 1);
    } else {
        let st = plan_manifests(acf, removed, existing, n);
        assert(st.actions =~= Seq::<SyncAction>::empty());
        assert forall|x: u32| #[trigger] st.seen.contains(x) <==> (!is_removed(removed, x) && ((exists|i: int|
        0 <= i < n && #[trigger] acf[i].app_id == x) || (exists|j: int| 0 <= j < 0 && #[trigger] api[j] == x))) by {
        }
    }
}


proof fn lemma_owned_step(
    st: PlanState,
    acf: Seq<AcfGame>,
    api: Seq<u32>,
    removed: Seq<i64>,
    existing: Set<u32>,
    m: int,
)
    requires
        plan_inv(st, acf, api, removed, existing, acf.len() as int, m),
        m < api.len(),
    ensures
        plan_inv(owned_step(st, api[m], removed), acf, api, removed, existing, acf.len() as int, m + 1),
{
    let n = acf.len() as int;
    let id = api[m];
    let st2 = owned_step(st, id, removed);
    let acts = st.actions;
    let acts2 = st2.actions;
    if is_removed(removed, id) || st.seen.contains(id) {
        assert forall|x: u32| #[trigger] st2.seen.contains(x) <==> (!is_removed(removed, x) && ((
        exists|i: int| 0 <= i < n && #[trigger] acf[i].app_id == x) || (exists|j: int|
            0 <= j < m + 1 && #[trigger] api[j] == x))) by {
            if exists|j: int| 0 <= j < m + 1 && #[trigger] api[j] == x {
                let j = choose|j: int| 0 <= j < m + 1 && #[trigger] api[j] == x;
                if j == m {
                    assert(x == id);
                }
            }
        }
    } else {
        assert forall|x: u32| #[trigger] st2.seen.contains(x) <==> (!is_removed(removed, x) && ((
        exists|i: int| 0 <= i < n && #[trigger] acf[i].app_id == x) || (exists|j: int|
            0 <= j < m + 1 && #[trigger] api[j] == x))) by {
            assert(st2.seen == st.seen.push(id));
            if exists|j: int| 0 <= j < m + 1 && #[trigger] api[j] == x {
                let j = choose|j: int| 0 <= j < m + 1 && #[trigger] api[j] == x;
                if j == m {
                    assert(x == id);
                }
            }
            if x == id {
                assert(api[m] == x);
            }
        }
        if !st.known.contains(id) {
            let a = SyncAction::InsertOwned { app_id: id };
            assert(acts2 == acts.push(a));
            lemma_counts_push(acts, a);
            assert forall|k: int| 0 <= k < acts2.len() implies (#[trigger] manifest_index(acts2[k]) matches Some(
                i,
            ) ==> i < n) by {
                if k < acts.len() {
                    assert(acts2[k] == acts[k]);
                }
            }
            assert forall|k: int| 0 <= k < acts2.len() implies !is_removed(
                removed,
                #[trigger] action_app_id(acts2[k], acf),
            ) by {
                if k < acts.len() {
                    assert(acts2[k] == acts[k]);
                }
            }
            assert forall|x: u32| #[trigger] st2.known.contains(x) <==> (existing.contains(x) || exists|
                k: int,
            | 0 <= k < acts2.len() && is_insert(acts2[k]) && #[trigger] action_app_id(acts2[k], acf) == x) by {
                if exists|k: int| 0 <= k < acts.len() && is_insert(acts[k]) && #[trigger] action_app_id(acts[k], acf) == x {
                    let k = choose|k: int| 0 <= k < acts.len() && is_insert(acts[k]) && #[trigger] action_app_id(acts[k], acf) == x;
                    assert(acts2[k] == acts[k]);
                }
                if exists|k: int| 0 <= k < acts2.len() && is_insert(acts2[k]) && #[trigger] action_app_id(acts2[k], acf) == x {
                    let k = choose|k: int| 0 <= k < acts2.len() && is_insert(acts2[k]) && #[trigger] action_app_id(acts2[k], acf) == x;
                    if k < acts.len() {
                        assert(acts2[k] == acts[k]);
                    } else {
                        assert(acts2[k] == a);
                    }
                }
                assert(acts2[acts.len() as int] == a);
                assert(action_app_id(a, acf) == id);
            }
            assert forall|k: int| 0 <= k < acts2.len() && is_insert(acts2[k]) implies !existing.contains(
                #[trigger] action_app_id(acts2[k], acf),
            ) by {
                if k < acts.len() {
                    assert(acts2[k] == acts[k]);
                }
            }
            assert forall|k1: int, k2: int|
                0 <= k1 < k2 < acts2.len() && is_insert(acts2[k1]) && is_insert(acts2[k2]) implies #[trigger] action_app_id(
                acts2[k1],
                acf,
            ) != #[trigger] action_app_id(acts2[k2], acf) by {
                assert(acts2[k1] == acts[k1]);
                if k2 < acts.len() {
                    assert(acts2[k2] == acts[k2]);
                } else {
                    assert(acts2[k2] == a);
                    assert(st.known.contains(action_app_id(acts[k1], acf)));
                }
            }
            assert forall|k1: int, k2: int|
                0 <= k1 < k2 < acts2.len() && #[trigger] manifest_index(acts2[k1]) is Some && #[trigger] manifest_index(
                    acts2[k2],
                ) is Some implies manifest_index(acts2[k1]).unwrap() < manifest_index(acts2[k2]).unwrap() by {
                assert(acts2[k1] == acts[k1]);
                if k2 < acts.len() {
                    assert(acts2[k2] == acts[k2]);
                }
            }
            assert forall|i: int| 0 <= i < n && !is_removed(removed, #[trigger] acf[i].app_id) implies exists|
                k: int,
            | 0 <= k < acts2.len() && #[trigger] manifest_index(acts2[k]) == Some(i as usize) by {
                let k = choose|k: int| 0 <= k < acts.len() && #[trigger] manifest_index(acts[k]) == Some(i as usize);
                assert(acts2[k] == acts[k]);
            }
        }
    }
}

proof fn lemma_plan_owned(
    start: PlanState,
    acf: Seq<AcfGame>,
    api: Seq<u32>,
    removed: Seq<i64>,
    existing: Set<u32>,
    m: int,
)
    requires
        plan_inv(start, acf, api, removed, existing, acf.len() as int, 0),
        0 <= m <= api.len(),
    ensures
        plan_inv(plan_owned(start, api, removed, m), acf, api, removed, existing, acf.len() as int, m),
    decreases m,
{
    if m > 0 {
        lemma_plan_owned(start, acf, api, removed, existing, m - 1);
        lemma_owned_step(plan_owned(start, api, removed, m - 1), acf, api, removed, existing, m - 1);
    }
}

/// The invariant of the whole plan.
proof fn lemma_sync_plan(acf: Seq<AcfGame>, api: Seq<u32>, removed: Seq<i64>, existing: Seq<u32>)
    requires
        acf.len() <= usize::MAX,
    ensures
        plan_inv(
            sync_plan(acf, api, removed, existing),
            acf,
            api,
            removed,
            as_set(existing),
            acf.len() as int,
            api.len() as int,
        ),
{
    lemma_plan_manifests(acf, api, removed, as_set(existing), acf.len() as int);
    lemma_plan_owned(
        plan_manifests(acf, removed, as_set(existing), acf.len() as int),
        acf,
        api,
        removed,
        as_set(existing),
        api.len() as int,
    );
}


/// Games the user removed by hand are never inserted or updated by a synchronisation:
/// a removed app id is brought back neither from the local manifests nor from the
/// owned-games list, and is not among the app ids seen.
pub proof fn law_sync_skips_removed(acf: Seq<AcfGame>, api: Seq<u32>, removed: Seq<i64>, existing: Seq<u32>)
    requires
        acf.len() <= usize::MAX,
    ensures
        forall|k: int|
            0 <= k < sync_plan(acf, api, removed, existing).actions.len() ==> !is_removed(
                removed,
                #[trigger] action_app_id(sync_plan(acf, api, removed, existing).actions[k], acf),
            ),
        forall|a: u32, k: int|
            #[trigger] is_removed(removed, a) && 0 <= k < sync_plan(acf, api, removed, existing).actions.len()
                ==> #[trigger] action_app_id(sync_plan(acf, api, removed, existing).actions[k], acf) != a,
        forall|a: u32| is_removed(removed, a) ==> !#[trigger] sync_plan(acf, api, removed, existing).seen.contains(a),
{
    lemma_sync_plan(acf, api, removed, existing);
    law_sync_seen(acf, api, removed, existing);
}

/// A synchronisation inserts only games that were not stored, and each at most once.
pub proof fn law_sync_inserts_once(acf: Seq<AcfGame>, api: Seq<u32>, removed: Seq<i64>, existing: Seq<u32>)
    requires
        acf.len() <= usize::MAX,
    ensures
        ({
            let acts = sync_plan(acf, api, removed, existing).actions;
            &&& forall|k: int|
                0 <= k < acts.len() && is_insert(acts[k]) ==> !existing.contains(
                    #[trigger] action_app_id(acts[k], acf),
                )
            &&& forall|k1: int, k2: int|
                0 <= k1 < k2 < acts.len() && is_insert(acts[k1]) && is_insert(acts[k2])
                    ==> #[trigger] action_app_id(acts[k1], acf) != #[trigger] action_app_id(acts[k2], acf)
        }),
{
    lemma_sync_plan(acf, api, removed, existing);
}

/// The counts a synchronisation reports are the numbers of its inserts and updates.
pub proof fn law_sync_counts(acf: Seq<AcfGame>, api: Seq<u32>, removed: Seq<i64>, existing: Seq<u32>)
    requires
        acf.len() <= usize::MAX,
    ensures
        sync_plan(acf, api, removed, existing).added == count_inserts(sync_plan(acf, api, removed, existing).actions),
        sync_plan(acf, api, removed, existing).updated == count_updates(sync_plan(acf, api, removed, existing).actions),
{
    lemma_sync_plan(acf, api, removed, existing);
}

/// Every installed game that the user did not remove is inserted or updated exactly
/// once, and the changes follow the order of the manifests.
pub proof fn law_sync_each_manifest_once(acf: Seq<AcfGame>, api: Seq<u32>, removed: Seq<i64>, existing: Seq<u32>)
    requires
        acf.len() <= usize::MAX,
    ensures
        ({
            let acts = sync_plan(acf, api, removed, existing).actions;
            &&& forall|i: int| 0 <= i < acf.len() ==> (!is_removed(removed, #[trigger] acf[i].app_id) <==> exists|k: int|
                0 <= k < acts.len() && #[trigger] manifest_index(acts[k]) == Some(i as usize))
            &&& forall|k1: int, k2: int|
                0 <= k1 < k2 < acts.len() && #[trigger] manifest_index(acts[k1]) is Some && #[trigger] manifest_index(
                    acts[k2],
                ) is Some ==> manifest_index(acts[k1]).unwrap() < manifest_index(acts[k2]).unwrap()
        }),
{
    lemma_sync_plan(acf, api, removed, existing);
    let acts = sync_plan(acf, api, removed, existing).actions;
    assert forall|i: int| 0 <= i < acf.len() implies (!is_removed(removed, #[trigger] acf[i].app_id) <==> exists|k: int|
        0 <= k < acts.len() && #[trigger] manifest_index(acts[k]) == Some(i as usize)) by {
        if exists|k: int| 0 <= k < acts.len() && #[trigger] manifest_index(acts[k]) == Some(i as usize) {
            let k = choose|k: int| 0 <= k < acts.len() && #[trigger] manifest_index(acts[k]) == Some(i as usize);
            assert(action_app_id(acts[k], acf) == acf[i].app_id);
        }
    }
}

/// The app ids a synchronisation has seen are exactly those of the manifests and of
/// the owned games, less the ones the user removed.
pub proof fn law_sync_seen(acf: Seq<AcfGame>, api: Seq<u32>, removed: Seq<i64>, existing: Seq<u32>)
    requires
        acf.len() <= usize::MAX,
    ensures
        forall|x: u32| #[trigger] sync_plan(acf, api, removed, existing).seen.contains(x) <==> (!is_removed(removed, x)
            && ((exists|i: int| 0 <= i < acf.len() && #[trigger] acf[i].app_id == x) || (exists|j: int|
            0 <= j < api.len() && #[trigger] api[j] == x))),
{
    lemma_sync_plan(acf, api, removed, existing);
}

/// The stored Steam games whose app id is not among `seen` (the app ids a
/// synchronisation has seen); a stored app id is compared by its low 32 bits (`as u32`).
pub open spec fn stale_app_ids(ids: Seq<i64>, seen: Seq<u32>) -> Seq<i64>
    decreases ids.len(),
{
    if ids.len() == 0 {
        seq![]
    } else {
        stale_app_ids(ids.drop_last(), seen) + if !seen.contains(ids.last() as u32) {
            seq![ids.last()]
        } else {
            seq![]
        }
    }
}

/// The stored Steam games to mark as not installed: those whose app id the
/// synchronisation has not seen.
pub fn uninstalled_app_ids(steam_app_ids: &Vec<i64>, seen_app_ids: &Vec<u32>) -> (r: Vec<i64>)
    ensures
        r@ == stale_app_ids(steam_app_ids@, seen_app_ids@),
{
    let mut r: Vec<i64> = Vec::new();
    let mut i: usize = 0;
    while i < steam_app_ids.len()
        invariant
            i <= steam_app_ids.len(),
            r@ == stale_app_ids(steam_app_ids@.take(i as int), seen_app_ids@),
        decreases steam_app_ids.len() - i,
    {
        let id = steam_app_ids[i];
        assert(steam_app_ids@.take(i + 1).drop_last() =~= steam_app_ids@.take(i as int));
        if !contains_u32(seen_app_ids, id as u32) {
            r.push(id);
        }
        i += 1;
        assert(r@ =~= stale_app_ids(steam_app_ids@.take(i as int), seen_app_ids@));
    }
    assert(steam_app_ids@.take(steam_app_ids.len() as int) =~= steam_app_ids@);
    r
}

proof fn lemma_stale(ids: Seq<i64>, seen: Seq<u32>)
    ensures
        forall|x: i64| #[trigger] stale_app_ids(ids, seen).contains(x) <==> (ids.contains(x) && !seen.contains(x as u32)),
    decreases ids.len(),
{
    if ids.len() > 0 {
        lemma_stale(ids.drop_last(), seen);
        assert forall|x: i64| #[trigger] stale_app_ids(ids, seen).contains(x) <==> (ids.contains(x) && !seen.contains(x as u32)) by {
            let rest = ids.drop_last();
            assert(ids == rest.push(ids.last()));
            if ids.contains(x) && x != ids.last() {
                let k = choose|k: int| 0 <= k < ids.len() && ids[k] == x;
                assert(rest[k] == x);
            }
            if stale_app_ids(rest, seen).contains(x) {
                let k = choose|k: int| 0 <= k < rest.len() && rest[k] == x;
                assert(ids[k] == x);
            }
        }
    }
}

/// A stored Steam game is marked as not installed exactly when its app id is not among
/// the installed ones handed over.
pub proof fn law_sync_marks_unseen(ids: Seq<i64>, seen: Seq<u32>)
    ensures
        forall|x: i64| #[trigger] stale_app_ids(ids, seen).contains(x) <==> (ids.contains(x) && !seen.contains(x as u32)),
{
    lemma_stale(ids, seen);
}

/// A stored Steam game is marked as not installed by a synchronisation exactly when
/// neither a local manifest nor the owned-games list holds its app id (compared by its
/// low 32 bits), or the user removed that game.
pub proof fn law_sync_marks_unseen_games(
    ids: Seq<i64>,
    acf: Seq<AcfGame>,
    api: Seq<u32>,
    removed: Seq<i64>,
    existing: Seq<u32>,
)
    requires
        acf.len() <= usize::MAX,
    ensures
        forall|x: i64| #[trigger]
            stale_app_ids(ids, sync_plan(acf, api, removed, existing).seen).contains(x) <==> (
            ids.contains(x) && !(!is_removed(removed, x as u32) && ((exists|i: int|
                0 <= i < acf.len() && #[trigger] acf[i].app_id == x as u32) || (exists|j: int|
                0 <= j < api.len() && #[trigger] api[j] == x as u32)))),
{
    let seen = sync_plan(acf, api, removed, existing).seen;
    law_sync_seen(acf, api, removed, existing);
    law_sync_marks_unseen(ids, seen);
    assert forall|x: i64| #[trigger] stale_app_ids(ids, seen).contains(x) <==> (ids.contains(x) && !(
        !is_removed(removed, x as u32) && ((exists|i: int|
            0 <= i < acf.len() && #[trigger] acf[i].app_id == x as u32) || (exists|j: int|
            0 <= j < api.len() && #[trigger] api[j] == x as u32)))) by {
        assert(seen.contains(x as u32) <==> (!is_removed(removed, x as u32) && ((exists|i: int|
            0 <= i < acf.len() && #[trigger] acf[i].app_id == x as u32) || (exists|j: int|
            0 <= j < api.len() && #[trigger] api[j] == x as u32))));
    }
}

} // verus!
