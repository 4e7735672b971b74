//! The touch arbiter: it decides, once per finger and on touchdown, what that finger is for,
//! and keeps that role until the finger lifts.
//!
//! The arbiter is generic over `K`, the per-finger kinematics (positions, age, path length) that
//! the host keeps for each finger. The arbiter never reads `K`: the geometry that decides whether
//! a touchdown lands in the joystick zone or over a UI frame, and the stick and look arithmetic,
//! belong to the host. What stands here are the decisions: which role a new finger gets, which
//! finger drives the UI pointer and the stick this frame, which fingers look, and which fingers
//! are retired (and with what effect) once their release has been published.
use vstd::prelude::*;

verus! {

/// What a finger was claimed for on touchdown. Assigned once; never reassigned.
#[derive(Clone, Copy, PartialEq, Eq, Structural, Debug)]
pub enum Role {
    /// Left-thumb movement stick.
    Joystick,
    /// Driving the UI pointer (this finger came down over a mouse-enabled frame).
    Ui,
    /// Free-swipe camera look, and, if it barely moves before lifting, a world tap.
    Look,
}

/// One finger the arbiter is tracking: its touch id, its role and the host's kinematics for it.
#[derive(Clone, Copy, Debug)]
pub struct Finger<K> {
    pub id: u64,
    pub role: Role,
    pub kin: K,
}

/// A touch that came down this frame, with the two facts about where it landed that decide its
/// role: inside the joystick zone, and over a mouse-enabled UI frame that is not the world frame.
#[derive(Clone, Copy, Debug)]
pub struct Press<K> {
    pub id: u64,
    pub in_zone: bool,
    pub over_ui: bool,
    /// The kinematics the finger starts with.
    pub kin: K,
}

/// What this frame's fingers publish, by their index in [`Fingers::active`].
pub struct Publish {
    /// The finger whose position the UI pointer takes: the last UI finger.
    pub pointer: Option<usize>,
    /// A UI finger came down this frame.
    pub pointer_just_pressed: bool,
    /// Every look finger, in order.
    pub look: Vec<usize>,
    /// The one joystick finger, if any.
    pub joystick: Option<usize>,
}

/// What retiring the lifted fingers hands back to the host.
pub struct Retired<K> {
    /// The kinematics of the last UI finger that lifted: the pointer's release position.
    pub pointer_release: Option<K>,
    /// The kinematics of every look finger that lifted, in order: world-tap candidates.
    pub taps: Vec<K>,
    /// The joystick finger lifted, so the stick's anchor is gone.
    pub joystick_released: bool,
}

/// Every finger currently down, with its role.
pub struct Fingers<K> {
    active: Vec<Finger<K>>,
}

/// The role a touchdown gets. The stick is tested first, so it keeps its zone even under a
/// frame that takes the mouse; then the UI (unless the UI is hidden); then look.
pub open spec fn role_for(in_zone: bool, joystick_free: bool, ui_hidden: bool, over_ui: bool) -> Role {
    if in_zone && joystick_free {
        Role::Joystick
    } else if !ui_hidden && over_ui {
        Role::Ui
    } else {
        Role::Look
    }
}

pub open spec fn has_id<K>(fs: Seq<Finger<K>>, id: u64) -> bool {
    exists|i: int| 0 <= i < fs.len() && #[trigger] fs[i].id == id
}

pub open spec fn has_role<K>(fs: Seq<Finger<K>>, role: Role) -> bool {
    exists|i: int| 0 <= i < fs.len() && #[trigger] fs[i].role == role
}

/// No touch id is tracked twice, and at most one finger holds the stick.
pub open spec fn well_formed<K>(fs: Seq<Finger<K>>) -> bool {
    &&& forall|i: int, j: int| 0 <= i < j < fs.len() ==> #[trigger] fs[i].id != #[trigger] fs[j].id
    &&& forall|i: int, j: int|
        0 <= i < fs.len() && 0 <= j < fs.len() && #[trigger] fs[i].role == Role::Joystick
            && #[trigger] fs[j].role == Role::Joystick ==> i == j
}

/// Two finger lists that differ at most in the kinematics: the same touch ids with the same
/// roles, in the same order.
pub open spec fn same_identities<K>(a: Seq<Finger<K>>, b: Seq<Finger<K>>) -> bool {
    &&& a.len() == b.len()
    &&& forall|i: int|
        #![trigger a[i]]
        #![trigger b[i]]
        0 <= i < a.len() ==> a[i].id == b[i].id && a[i].role == b[i].role
}

/// One touchdown: a touch already tracked is left alone; a new one is appended with its role.
pub open spec fn claim_one<K>(fs: Seq<Finger<K>>, p: Press<K>, ui_hidden: bool) -> Seq<Finger<K>> {
    if has_id(fs, p.id) {
        fs
    } else {
        fs.push(
            Finger {
                id: p.id,
                role: role_for(p.in_zone, !has_role(fs, Role::Joystick), ui_hidden, p.over_ui),
                kin: p.kin,
            },
        )
    }
}

/// This frame's touchdowns, taken in order.
pub open spec fn claim_all<K>(fs: Seq<Finger<K>>, ps: Seq<Press<K>>, ui_hidden: bool) -> Seq<Finger<K>>
    decreases ps.len(),
{
    if ps.len() == 0 {
        fs
    } else {
        claim_one(claim_all(fs, ps.drop_last(), ui_hidden), ps.last(), ui_hidden)
    }
}

/// A tracked touch has lifted: it was reported released, or it is no longer pressed at all
/// (a touch the system cancelled never reports a release).
pub open spec fn lifted(id: u64, pressed: Seq<u64>, released: Seq<u64>) -> bool {
    released.contains(id) || !pressed.contains(id)
}

/// The indices, in order, of the first `n` fingers whose role is `role`.
pub open spec fn role_indices<K>(fs: Seq<Finger<K>>, role: Role, n: int) -> Seq<usize>
    decreases n,
{
    if n <= 0 {
        Seq::empty()
    } else if fs[n - 1].role == role {
        role_indices(fs, role, n - 1).push((n - 1) as usize)
    } else {
        role_indices(fs, role, n - 1)
    }
}

/// The first `n` fingers that have not lifted, in order.
pub open spec fn survivors<K>(fs: Seq<Finger<K>>, pressed: Seq<u64>, released: Seq<u64>, n: int) -> Seq<
    Finger<K>,
>
    decreases n,
{
    if n <= 0 {
        Seq::empty()
    } else if lifted(fs[n - 1].id, pressed, released) {
        survivors(fs, pressed, released, n - 1)
    } else {
        survivors(fs, pressed, released, n - 1).push(fs[n - 1])
    }
}

/// The kinematics, in order, of the look fingers among the first `n` that have lifted.
pub open spec fn lifted_looks<K>(fs: Seq<Finger<K>>, pressed: Seq<u64>, released: Seq<u64>, n: int) -> Seq<K>
    decreases n,
{
    if n <= 0 {
        Seq::empty()
    } else if fs[n - 1].role == Role::Look && lifted(fs[n - 1].id, pressed, released) {
        lifted_looks(fs, pressed, released, n - 1).push(fs[n - 1].kin)
    } else {
        lifted_looks(fs, pressed, released, n - 1)
    }
}

/// Claiming one touchdown keeps the fingers well formed and leaves every tracked finger as it was.
proof fn lemma_claim_one<K>(fs: Seq<Finger<K>>, p: Press<K>, ui_hidden: bool)
    requires
        well_formed(fs),
    ensures
        well_formed(claim_one(fs, p, ui_hidden)),
        claim_one(fs, p, ui_hidden).len() >= fs.len(),
        claim_one(fs, p, ui_hidden).take(fs.len() as int) == fs,
        has_id(claim_one(fs, p, ui_hidden), p.id),
{
    let r = claim_one(fs, p, ui_hidden);
    if has_id(fs, p.id) {
        assert(fs.take(fs.len() as int) =~= fs);
    } else {
        assert(r.take(fs.len() as int) =~= fs);
        assert(r[fs.len() as int].id == p.id);
        assert forall|i: int, j: int|
            0 <= i < r.len() && 0 <= j < r.len() && #[trigger] r[i].role == Role::Joystick
                && #[trigger] r[j].role == Role::Joystick implies i == j by {
            if i == fs.len() && j < fs.len() {
                assert(fs[j].role == Role::Joystick);
            }
            if j == fs.len() && i < fs.len() {
                assert(fs[i].role == Role::Joystick);
            }
        }
        assert forall|i: int, j: int| 0 <= i < j < r.len() implies #[trigger] r[i].id
            != #[trigger] r[j].id by {
            if j == fs.len() {
                assert(fs[i].id == r[i].id);
            }
        }
    }
}

/// Claiming a frame's touchdowns keeps the fingers well formed, leaves every finger that was
/// already tracked where and as it was, and tracks every touch that came down.
pub proof fn lemma_claim_all<K>(fs: Seq<Finger<K>>, ps: Seq<Press<K>>, ui_hidden: bool)
    requires
        well_formed(fs),
    ensures
        well_formed(claim_all(fs, ps, ui_hidden)),
        claim_all(fs, ps, ui_hidden).len() >= fs.len(),
        claim_all(fs, ps, ui_hidden).take(fs.len() as int) == fs,
        forall|k: int| 0 <= k < ps.len() ==> has_id(claim_all(fs, ps, ui_hidden), #[trigger] ps[k].id),
    decreases ps.len(),
{
    if ps.len() > 0 {
        let prev = claim_all(fs, ps.drop_last(), ui_hidden);
        lemma_claim_all(fs, ps.drop_last(), ui_hidden);
        lemma_claim_one(prev, ps.last(), ui_hidden);
        let r = claim_one(prev, ps.last(), ui_hidden);
        assert(r.take(fs.len() as int) =~= fs) by {
            assert forall|i: int| 0 <= i < fs.len() implies r[i] == fs[i] by {
                assert(r.take(prev.len() as int)[i] == prev[i]);
                assert(prev.take(fs.len() as int)[i] == fs[i]);
            }
        }
        assert forall|k: int| 0 <= k < ps.len() implies has_id(r, #[trigger] ps[k].id) by {
            if k < ps.len() - 1 {
                assert(ps.drop_last()[k] == ps[k]);
                let i = choose|i: int| 0 <= i < prev.len() && #[trigger] prev[i].id == ps[k].id;
                assert(r.take(prev.len() as int)[i] == prev[i]);
                assert(r[i].id == ps[k].id);
            }
        }
    }
}

/// Claiming touchdowns whose touches are all tracked already changes nothing.
proof fn lemma_claim_tracked<K>(fs: Seq<Finger<K>>, ps: Seq<Press<K>>, ui_hidden: bool)
    requires
        forall|k: int| 0 <= k < ps.len() ==> has_id(fs, #[trigger] ps[k].id),
    ensures
        claim_all(fs, ps, ui_hidden) == fs,
    decreases ps.len(),
{
    if ps.len() > 0 {
        assert forall|k: int| 0 <= k < ps.drop_last().len() implies has_id(
            fs,
            #[trigger] ps.drop_last()[k].id,
        ) by {
            assert(ps.drop_last()[k] == ps[k]);
        }
        lemma_claim_tracked(fs, ps.drop_last(), ui_hidden);
        assert(has_id(fs, ps[ps.len() - 1].id));
    }
}

/// One whole frame keeps the arbiter's invariant and never moves a role. Starting from well
/// formed fingers `fs`: claim this frame's touchdowns, let the host move any fingers (which
/// changes kinematics only), then retire the lifted ones. The fingers that remain are well
/// formed (distinct touch ids, at most one on the stick), none of them has lifted, every finger
/// that was down before keeps its role if it remains, and every finger that was down before and
/// has not lifted remains.
pub proof fn lemma_frame_keeps_roles<K>(
    fs: Seq<Finger<K>>,
    ps: Seq<Press<K>>,
    ui_hidden: bool,
    moved: Seq<Finger<K>>,
    pressed: Seq<u64>,
    released: Seq<u64>,
)
    requires
        well_formed(fs),
        same_identities(claim_all(fs, ps, ui_hidden), moved),
    ensures
        ({
            let after = survivors(moved, pressed, released, moved.len() as int);
            &&& well_formed(after)
            &&& forall|j: int| 0 <= j < after.len() ==> !lifted(#[trigger] after[j].id, pressed, released)
            &&& forall|i: int, j: int|
                0 <= i < fs.len() && 0 <= j < after.len() && #[trigger] fs[i].id == #[trigger] after[j].id
                    ==> fs[i].role == after[j].role
            &&& forall|i: int|
                0 <= i < fs.len() && !lifted(#[trigger] fs[i].id, pressed, released) ==> exists|j: int|
                    0 <= j < after.len() && after[j].id == fs[i].id && after[j].role == fs[i].role
        }),
{
    let claimed = claim_all(fs, ps, ui_hidden);
    lemma_claim_all(fs, ps, ui_hidden);
    assert forall|i: int| 0 <= i < fs.len() implies claimed[i] == fs[i] by {
        assert(claimed.take(fs.len() as int)[i] == fs[i]);
    }
    assert forall|i: int, j: int| 0 <= i < j < moved.len() implies #[trigger] moved[i].id
        != #[trigger] moved[j].id by {
        assert(claimed[i].id == moved[i].id);
        assert(claimed[j].id == moved[j].id);
    }
    assert forall|i: int, j: int|
        0 <= i < moved.len() && 0 <= j < moved.len() && #[trigger] moved[i].role == Role::Joystick
            && #[trigger] moved[j].role == Role::Joystick implies i == j by {
        assert(claimed[i].role == moved[i].role);
        assert(claimed[j].role == moved[j].role);
    }
    let n = moved.len() as int;
    let after = survivors(moved, pressed, released, n);
    lemma_survivors_wf(moved, pressed, released, n);
    lemma_survivors_sub(moved, pressed, released, n);
    assert forall|j: int| 0 <= j < after.len() implies !lifted(#[trigger] after[j].id, pressed, released) by {
        let k = choose|k: int|
            0 <= k < n && #[trigger] after[j] == moved[k] && !lifted(moved[k].id, pressed, released);
    }
    assert forall|i: int, j: int|
        0 <= i < fs.len() && 0 <= j < after.len() && #[trigger] fs[i].id == #[trigger] after[j].id
            implies fs[i].role == after[j].role by {
        let k = choose|k: int|
            0 <= k < n && #[trigger] after[j] == moved[k] && !lifted(moved[k].id, pressed, released);
        assert(claimed[k].id == moved[k].id && claimed[k].role == moved[k].role);
        assert(claimed[i] == fs[i]);
        if k != i {
            if i < k {
                assert(claimed[i].id != claimed[k].id);
            } else {
                assert(claimed[k].id != claimed[i].id);
            }
        }
    }
    assert forall|i: int| 0 <= i < fs.len() && !lifted(#[trigger] fs[i].id, pressed, released) implies exists|j: int|
        0 <= j < after.len() && after[j].id == fs[i].id && after[j].role == fs[i].role by {
        assert(claimed[i] == fs[i]);
        assert(moved[i].id == fs[i].id && moved[i].role == fs[i].role);
        assert(!lifted(moved[i].id, pressed, released));
        assert(after.contains(moved[i]));
        let j = choose|j: int| 0 <= j < after.len() && after[j] == moved[i];
    }
}

/// A touchdown takes the stick exactly when it lands in the joystick zone while no finger holds
/// the stick, whether or not the UI is hidden and whether or not it is over a UI frame; it is a
/// look finger exactly when it takes neither the stick nor the UI.
pub proof fn lemma_stick_and_look_roles(in_zone: bool, joystick_free: bool, ui_hidden: bool, over_ui: bool)
    ensures
        (role_for(in_zone, joystick_free, ui_hidden, over_ui) == Role::Joystick) <==> (in_zone
            && joystick_free),
        (role_for(in_zone, joystick_free, ui_hidden, over_ui) == Role::Look) <==> (!(in_zone
            && joystick_free) && !(!ui_hidden && over_ui)),
{
}

/// A touchdown of a touch not yet tracked appends exactly one finger, with that touch's id and
/// kinematics, after the fingers already down (which stay as they were). It holds the stick when
/// it landed in the zone and no finger held the stick (whatever the UI shows), else it is a UI
/// finger when the UI is shown and it landed over a UI frame, else it looks. A touchdown of a
/// touch already tracked changes nothing.
pub proof fn lemma_claim_one_roles<K>(fs: Seq<Finger<K>>, p: Press<K>, ui_hidden: bool)
    ensures
        has_id(fs, p.id) ==> claim_one(fs, p, ui_hidden) == fs,
        !has_id(fs, p.id) ==> ({
            let r = claim_one(fs, p, ui_hidden);
            let stick = p.in_zone && !has_role(fs, Role::Joystick);
            &&& r.len() == fs.len() + 1
            &&& r.drop_last() == fs
            &&& r.last().id == p.id
            &&& r.last().kin == p.kin
            &&& stick ==> r.last().role == Role::Joystick
            &&& !stick && !ui_hidden && p.over_ui ==> r.last().role == Role::Ui
            &&& !stick && !(!ui_hidden && p.over_ui) ==> r.last().role == Role::Look
        }),
{
    if !has_id(fs, p.id) {
        let r = claim_one(fs, p, ui_hidden);
        assert(r.drop_last() =~= fs);
    }
}

/// Press `k` is the first of this frame's touchdowns with touch `id`.
pub open spec fn first_press<K>(ps: Seq<Press<K>>, k: int, id: u64) -> bool {
    &&& 0 <= k < ps.len()
    &&& ps[k].id == id
    &&& forall|k2: int| 0 <= k2 < k ==> #[trigger] ps[k2].id != id
}

/// Finger `j` of `r` was made by press `k`: it has that press's id and kinematics, and its role
/// is the stick if the press landed in the zone with no stick finger before it in `r`, else the
/// UI if the UI is shown and the press landed over a UI frame, else look.
pub open spec fn made_by<K>(r: Seq<Finger<K>>, j: int, ps: Seq<Press<K>>, k: int, ui_hidden: bool) -> bool {
    let stick = ps[k].in_zone && !has_role(r.take(j), Role::Joystick);
    &&& first_press(ps, k, r[j].id)
    &&& r[j].kin == ps[k].kin
    &&& stick ==> r[j].role == Role::Joystick
    &&& !stick && !ui_hidden && ps[k].over_ui ==> r[j].role == Role::Ui
    &&& !stick && !(!ui_hidden && ps[k].over_ui) ==> r[j].role == Role::Look
}

proof fn lemma_first_press_unique<K>(ps: Seq<Press<K>>, k1: int, k2: int, id: u64)
    requires
        first_press(ps, k1, id),
        first_press(ps, k2, id),
    ensures
        k1 == k2,
{
    if k1 < k2 {
        assert(ps[k1].id != id);
    }
    if k2 < k1 {
        assert(ps[k2].id != id);
    }
}

proof fn lemma_first_press_extend<K>(pd: Seq<Press<K>>, ps: Seq<Press<K>>, k: int, id: u64)
    requires
        ps.len() > 0,
        pd == ps.drop_last(),
        0 <= k < pd.len(),
    ensures
        first_press(pd, k, id) == first_press(ps, k, id),
{
    assert(pd[k] == ps[k]);
    assert forall|k2: int| 0 <= k2 < k implies pd[k2] == ps[k2] by {}
}

proof fn lemma_made_by_extend<K>(
    r: Seq<Finger<K>>,
    prev: Seq<Finger<K>>,
    j: int,
    pd: Seq<Press<K>>,
    ps: Seq<Press<K>>,
    k: int,
    ui_hidden: bool,
)
    requires
        ps.len() > 0,
        pd == ps.drop_last(),
        0 <= j < prev.len(),
        j < r.len(),
        r[j] == prev[j],
        r.take(j) == prev.take(j),
        made_by(prev, j, pd, k, ui_hidden),
    ensures
        made_by(r, j, ps, k, ui_hidden),
{
    lemma_first_press_extend(pd, ps, k, prev[j].id);
    assert(pd[k] == ps[k]);
}

/// Every finger of `r` from index `from` on was made by one of the touchdowns `ps`.
pub open spec fn all_made<K>(r: Seq<Finger<K>>, from: int, ps: Seq<Press<K>>, ui_hidden: bool) -> bool {
    forall|j: int| from <= j < r.len() ==> #[trigger] made_by_some(r, j, ps, ui_hidden)
}

/// Finger `j` of `r` was made by one of the touchdowns `ps`.
pub open spec fn made_by_some<K>(r: Seq<Finger<K>>, j: int, ps: Seq<Press<K>>, ui_hidden: bool) -> bool {
    exists|k: int| #[trigger] made_by(r, j, ps, k, ui_hidden)
}

/// The last touchdown of a frame, when its touch is not tracked after the earlier ones, is the
/// first touchdown of its touch.
proof fn lemma_last_press_first<K>(fs: Seq<Finger<K>>, ps: Seq<Press<K>>, ui_hidden: bool)
    requires
        well_formed(fs),
        ps.len() > 0,
        !has_id(claim_all(fs, ps.drop_last(), ui_hidden), ps.last().id),
    ensures
        first_press(ps, ps.len() - 1, ps.last().id),
{
    let pd = ps.drop_last();
    lemma_claim_all(fs, pd, ui_hidden);
    assert forall|k2: int| 0 <= k2 < ps.len() - 1 implies #[trigger] ps[k2].id != ps.last().id by {
        assert(pd[k2] == ps[k2]);
        assert(has_id(claim_all(fs, pd, ui_hidden), pd[k2].id));
    }
}

/// One step of `lemma_claim_all_made`: a finger that the last touchdown's claim leaves at index
/// `j` was made by one of the frame's touchdowns.
proof fn lemma_made_step<K>(fs: Seq<Finger<K>>, ps: Seq<Press<K>>, ui_hidden: bool, j: int) -> (k: int)
    requires
        well_formed(fs),
        ps.len() > 0,
        all_made(claim_all(fs, ps.drop_last(), ui_hidden), fs.len() as int, ps.drop_last(), ui_hidden),
        fs.len() <= j < claim_all(fs, ps, ui_hidden).len(),
    ensures
        made_by(claim_all(fs, ps, ui_hidden), j, ps, k, ui_hidden),
{
    let r = claim_all(fs, ps, ui_hidden);
    let pd = ps.drop_last();
    let last = ps.last();
    let prev = claim_all(fs, pd, ui_hidden);
    lemma_claim_one_roles(prev, last, ui_hidden);
    assert(r == claim_one(prev, last, ui_hidden));
    if j < prev.len() {
        assert(made_by_some(prev, j, pd, ui_hidden));
        let k0 = choose|k0: int| #[trigger] made_by(prev, j, pd, k0, ui_hidden);
        if !has_id(prev, last.id) {
            assert(r.drop_last()[j] == prev[j]);
            assert(r.take(j) =~= prev.take(j));
        }
        lemma_made_by_extend(r, prev, j, pd, ps, k0, ui_hidden);
        k0
    } else {
        lemma_last_press_first(fs, ps, ui_hidden);
        assert(r.take(j) =~= prev);
        assert(ps[ps.len() - 1] == last);
        ps.len() - 1
    }
}

/// Claiming a frame's touchdowns keeps the fingers already down as they were and appends one
/// finger per touch not yet tracked, each made by that touch's first touchdown this frame, with
/// the role its landing place gives it at that point.
pub proof fn lemma_claim_all_made<K>(fs: Seq<Finger<K>>, ps: Seq<Press<K>>, ui_hidden: bool)
    requires
        well_formed(fs),
    ensures
        all_made(claim_all(fs, ps, ui_hidden), fs.len() as int, ps, ui_hidden),
    decreases ps.len(),
{
    if ps.len() > 0 {
        lemma_claim_all_made(fs, ps.drop_last(), ui_hidden);
        assert forall|j: int|
            fs.len() <= j < claim_all(fs, ps, ui_hidden).len() implies #[trigger] made_by_some(
                claim_all(fs, ps, ui_hidden),
                j,
                ps,
                ui_hidden,
            ) by {
            let k = lemma_made_step(fs, ps, ui_hidden, j);
        }
        assert(all_made(claim_all(fs, ps, ui_hidden), fs.len() as int, ps, ui_hidden));
    } else {
        assert(claim_all(fs, ps, ui_hidden) == fs);
        assert(all_made(claim_all(fs, ps, ui_hidden), fs.len() as int, ps, ui_hidden));
    }
}

/// The fingers a frame's touchdowns append come in the order of their touches' first touchdowns.
pub proof fn lemma_claim_all_order<K>(fs: Seq<Finger<K>>, ps: Seq<Press<K>>, ui_hidden: bool)
    requires
        well_formed(fs),
    ensures
        ({
            let r = claim_all(fs, ps, ui_hidden);
            forall|j1: int, j2: int, k1: int, k2: int|
                fs.len() <= j1 < j2 < r.len() && #[trigger] first_press(ps, k1, r[j1].id)
                    && #[trigger] first_press(ps, k2, r[j2].id) ==> k1 < k2
        }),
    decreases ps.len(),
{
    let r = claim_all(fs, ps, ui_hidden);
    if ps.len() > 0 {
        let pd = ps.drop_last();
        let last = ps.last();
        let n = ps.len() - 1;
        let prev = claim_all(fs, pd, ui_hidden);
        lemma_claim_all_order(fs, pd, ui_hidden);
        lemma_claim_all_made(fs, pd, ui_hidden);
        lemma_claim_one_roles(prev, last, ui_hidden);
        assert(r == claim_one(prev, last, ui_hidden));
        assert forall|j1: int, j2: int, k1: int, k2: int|
            fs.len() <= j1 < j2 < r.len() && #[trigger] first_press(ps, k1, r[j1].id)
                && #[trigger] first_press(ps, k2, r[j2].id) implies k1 < k2 by {
            if !has_id(prev, last.id) {
                assert(r.drop_last()[j1] == prev[j1]);
            }
            assert(r[j1] == prev[j1]);
            assert(made_by_some(prev, j1, pd, ui_hidden));
            let m1 = choose|m: int| #[trigger] made_by(prev, j1, pd, m, ui_hidden);
            lemma_first_press_extend(pd, ps, m1, prev[j1].id);
            lemma_first_press_unique(ps, k1, m1, prev[j1].id);
            if j2 < prev.len() {
                if !has_id(prev, last.id) {
                    assert(r.drop_last()[j2] == prev[j2]);
                }
                assert(r[j2] == prev[j2]);
                assert(made_by_some(prev, j2, pd, ui_hidden));
                let m2 = choose|m: int| #[trigger] made_by(prev, j2, pd, m, ui_hidden);
                lemma_first_press_extend(pd, ps, m2, prev[j2].id);
                lemma_first_press_unique(ps, k2, m2, prev[j2].id);
                lemma_first_press_extend(pd, ps, k1, prev[j1].id);
                lemma_first_press_extend(pd, ps, k2, prev[j2].id);
            } else {
                lemma_last_press_first(fs, ps, ui_hidden);
                lemma_first_press_unique(ps, k2, n, r[j2].id);
            }
        }
    } else {
        assert(r == fs);
    }
}

/// A finger is classified once, on its touchdown: claiming the same touchdowns again, as a
/// repeated frame would, changes nothing.
pub proof fn lemma_claim_is_once<K>(fs: Seq<Finger<K>>, ps: Seq<Press<K>>, ui_hidden: bool)
    requires
        well_formed(fs),
    ensures
        claim_all(claim_all(fs, ps, ui_hidden), ps, ui_hidden) == claim_all(fs, ps, ui_hidden),
{
    lemma_claim_all(fs, ps, ui_hidden);
    lemma_claim_tracked(claim_all(fs, ps, ui_hidden), ps, ui_hidden);
}

/// A tap over the UI that comes down and lifts inside one frame loses neither half: once it is
/// claimed, there is a UI finger that came down this frame (so `publish` reports the press) and a
/// UI finger that lifted (so `retire` reports the release).
pub proof fn lemma_one_frame_tap_completes<K>(
    fs: Seq<Finger<K>>,
    p: Press<K>,
    ui_hidden: bool,
    just_pressed: Seq<u64>,
    pressed: Seq<u64>,
    released: Seq<u64>,
)
    requires
        well_formed(fs),
        !has_id(fs, p.id),
        !(p.in_zone && !has_role(fs, Role::Joystick)),
        !ui_hidden,
        p.over_ui,
        just_pressed.contains(p.id),
        lifted(p.id, pressed, released),
    ensures
        ({
            let after = claim_all(fs, seq![p], ui_hidden);
            &&& exists|i: int|
                0 <= i < after.len() && #[trigger] after[i].role == Role::Ui && just_pressed.contains(
                    after[i].id,
                )
            &&& exists|i: int|
                0 <= i < after.len() && #[trigger] after[i].role == Role::Ui && lifted(
                    after[i].id,
                    pressed,
                    released,
                )
        }),
{
    let ps = seq![p];
    assert(ps.drop_last() =~= Seq::<Press<K>>::empty());
    assert(ps.last() == p);
    assert(claim_all(fs, ps.drop_last(), ui_hidden) == fs);
    let after = claim_all(fs, ps, ui_hidden);
    assert(after == claim_one(fs, p, ui_hidden));
    assert(after == fs.push(
        Finger { id: p.id, role: role_for(p.in_zone, !has_role(fs, Role::Joystick), ui_hidden, p.over_ui), kin: p.kin },
    ));
    assert(after[fs.len() as int].role == Role::Ui);
}

/// The stick wins its zone outright: a touchdown in the zone with no stick finger down takes
/// the stick, whether or not it also lands on a UI frame.
pub proof fn lemma_zone_beats_ui(ui_hidden: bool, over_ui: bool)
    ensures
        role_for(true, true, ui_hidden, over_ui) == Role::Joystick,
{
}

/// A touchdown becomes a UI finger exactly when it does not take the stick, the UI is shown and
/// it lands over a UI frame; a hidden UI never takes a finger.
pub proof fn lemma_ui_role(in_zone: bool, joystick_free: bool, ui_hidden: bool, over_ui: bool)
    ensures
        (role_for(in_zone, joystick_free, ui_hidden, over_ui) == Role::Ui) <==> (!(in_zone
            && joystick_free) && !ui_hidden && over_ui),
        ui_hidden ==> role_for(in_zone, joystick_free, ui_hidden, over_ui) != Role::Ui,
{
}

/// `role_indices` lists, in increasing order, exactly the first `n` fingers that hold `role`.
pub proof fn lemma_role_indices<K>(fs: Seq<Finger<K>>, role: Role, n: int)
    requires
        0 <= n <= fs.len(),
        fs.len() <= usize::MAX,
    ensures
        forall|m: int|
            0 <= m < role_indices(fs, role, n).len() ==> #[trigger] role_indices(fs, role, n)[m] < n
                && fs[role_indices(fs, role, n)[m] as int].role == role,
        forall|a: int, b: int|
            0 <= a < b < role_indices(fs, role, n).len() ==> #[trigger] role_indices(fs, role, n)[a]
                < #[trigger] role_indices(fs, role, n)[b],
        forall|k: int|
            0 <= k < n && #[trigger] fs[k].role == role ==> role_indices(fs, role, n).contains(
                k as usize,
            ),
    decreases n,
{
    if n > 0 {
        lemma_role_indices(fs, role, n - 1);
        let prev = role_indices(fs, role, n - 1);
        let cur = role_indices(fs, role, n);
        if fs[n - 1].role == role {
            assert forall|m: int| 0 <= m < cur.len() implies #[trigger] cur[m] < n && fs[cur[m] as int].role
                == role by {
                if m < prev.len() {
                    assert(cur[m] == prev[m]);
                }
            }
            assert forall|a: int, b: int| 0 <= a < b < cur.len() implies #[trigger] cur[a]
                < #[trigger] cur[b] by {
                assert(cur[a] == prev[a]);
                if b < prev.len() {
                    assert(cur[b] == prev[b]);
                }
            }
            assert forall|k: int| 0 <= k < n && #[trigger] fs[k].role == role implies cur.contains(
                k as usize,
            ) by {
                if k < n - 1 {
                    let m = choose|m: int| 0 <= m < prev.len() && prev[m] == k as usize;
                    assert(cur[m] == k as usize);
                } else {
                    assert(cur[prev.len() as int] == k as usize);
                }
            }
        }
    }
}

/// `taps` holds, in order, the kinematics of exactly the look fingers among the first `n` that
/// lifted; `idx` lists their indices, increasing.
pub open spec fn lists_lifted_looks<K>(
    fs: Seq<Finger<K>>,
    pressed: Seq<u64>,
    released: Seq<u64>,
    n: int,
    taps: Seq<K>,
    idx: Seq<int>,
) -> bool {
    &&& idx.len() == taps.len()
    &&& forall|m: int|
        0 <= m < idx.len() ==> 0 <= #[trigger] idx[m] < n && fs[idx[m]].role == Role::Look && lifted(
            fs[idx[m]].id,
            pressed,
            released,
        ) && taps[m] == fs[idx[m]].kin
    &&& forall|a: int, b: int| 0 <= a < b < idx.len() ==> #[trigger] idx[a] < #[trigger] idx[b]
    &&& forall|k: int|
        0 <= k < n && #[trigger] fs[k].role == Role::Look && lifted(fs[k].id, pressed, released)
            ==> idx.contains(k)
}

/// `out` holds, in order, exactly the fingers among the first `n` that have not lifted; `idx`
/// lists their indices, increasing.
pub open spec fn lists_survivors<K>(
    fs: Seq<Finger<K>>,
    pressed: Seq<u64>,
    released: Seq<u64>,
    n: int,
    out: Seq<Finger<K>>,
    idx: Seq<int>,
) -> bool {
    &&& idx.len() == out.len()
    &&& forall|m: int|
        0 <= m < idx.len() ==> 0 <= #[trigger] idx[m] < n && !lifted(fs[idx[m]].id, pressed, released)
            && out[m] == fs[idx[m]]
    &&& forall|a: int, b: int| 0 <= a < b < idx.len() ==> #[trigger] idx[a] < #[trigger] idx[b]
    &&& forall|k: int| 0 <= k < n && !lifted(#[trigger] fs[k].id, pressed, released) ==> idx.contains(k)
}

/// Every look finger that lifted is a world-tap candidate, in order, whatever the other fingers
/// do; no other finger is.
pub proof fn lemma_lifted_looks_listed<K>(fs: Seq<Finger<K>>, pressed: Seq<u64>, released: Seq<u64>, n: int) -> (idx:
    Seq<int>)
    requires
        0 <= n <= fs.len(),
    ensures
        lists_lifted_looks(fs, pressed, released, n, lifted_looks(fs, pressed, released, n), idx),
    decreases n,
{
    if n == 0 {
        Seq::empty()
    } else {
        let prev = lemma_lifted_looks_listed(fs, pressed, released, n - 1);
        let t = lifted_looks(fs, pressed, released, n);
        let tp = lifted_looks(fs, pressed, released, n - 1);
        if fs[n - 1].role == Role::Look && lifted(fs[n - 1].id, pressed, released) {
            let idx = prev.push(n - 1);
            assert forall|m: int| 0 <= m < idx.len() implies 0 <= #[trigger] idx[m] < n && fs[idx[m]].role
                == Role::Look && lifted(fs[idx[m]].id, pressed, released) && t[m] == fs[idx[m]].kin by {
                if m < prev.len() {
                    assert(idx[m] == prev[m]);
                    assert(t[m] == tp[m]);
                }
            }
            assert forall|a: int, b: int| 0 <= a < b < idx.len() implies #[trigger] idx[a]
                < #[trigger] idx[b] by {
                assert(idx[a] == prev[a]);
                if b < prev.len() {
                    assert(idx[b] == prev[b]);
                }
            }
            assert forall|k: int|
                0 <= k < n && #[trigger] fs[k].role == Role::Look && lifted(fs[k].id, pressed, released)
                    implies idx.contains(k) by {
                if k < n - 1 {
                    let m = choose|m: int| 0 <= m < prev.len() && prev[m] == k;
                    assert(idx[m] == k);
                } else {
                    assert(idx[prev.len() as int] == k);
                }
            }
            idx
        } else {
            assert forall|k: int|
                0 <= k < n && #[trigger] fs[k].role == Role::Look && lifted(fs[k].id, pressed, released)
                    implies prev.contains(k) by {
                if k == n - 1 {
                }
            }
            prev
        }
    }
}

/// The fingers that stay after a retirement are exactly the ones that have not lifted, in order.
pub proof fn lemma_survivors_listed<K>(fs: Seq<Finger<K>>, pressed: Seq<u64>, released: Seq<u64>, n: int) -> (idx:
    Seq<int>)
    requires
        0 <= n <= fs.len(),
    ensures
        lists_survivors(fs, pressed, released, n, survivors(fs, pressed, released, n), idx),
    decreases n,
{
    if n == 0 {
        Seq::empty()
    } else {
        let prev = lemma_survivors_listed(fs, pressed, released, n - 1);
        let t = survivors(fs, pressed, released, n);
        let tp = survivors(fs, pressed, released, n - 1);
        if !lifted(fs[n - 1].id, pressed, released) {
            let idx = prev.push(n - 1);
            assert forall|m: int| 0 <= m < idx.len() implies 0 <= #[trigger] idx[m] < n && !lifted(
                fs[idx[m]].id,
                pressed,
                released,
            ) && t[m] == fs[idx[m]] by {
                if m < prev.len() {
                    assert(idx[m] == prev[m]);
                    assert(t[m] == tp[m]);
                }
            }
            assert forall|a: int, b: int| 0 <= a < b < idx.len() implies #[trigger] idx[a]
                < #[trigger] idx[b] by {
                assert(idx[a] == prev[a]);
                if b < prev.len() {
                    assert(idx[b] == prev[b]);
                }
            }
            assert forall|k: int| 0 <= k < n && !lifted(#[trigger] fs[k].id, pressed, released) implies idx.contains(
                k,
            ) by {
                if k < n - 1 {
                    let m = choose|m: int| 0 <= m < prev.len() && prev[m] == k;
                    assert(idx[m] == k);
                } else {
                    assert(idx[prev.len() as int] == k);
                }
            }
            idx
        } else {
            prev
        }
    }
}

/// Every element of `survivors(.., n)` is one of the first `n` fingers, and the order is kept.
proof fn lemma_survivors_sub<K>(fs: Seq<Finger<K>>, pressed: Seq<u64>, released: Seq<u64>, n: int)
    requires
        0 <= n <= fs.len(),
    ensures
        survivors(fs, pressed, released, n).len() <= n,
        forall|m: int|
            0 <= m < survivors(fs, pressed, released, n).len() ==> exists|k: int|
                0 <= k < n && #[trigger] survivors(fs, pressed, released, n)[m] == fs[k]
                    && !lifted(fs[k].id, pressed, released),
    decreases n,
{
    if n > 0 {
        lemma_survivors_sub(fs, pressed, released, n - 1);
        let prev = survivors(fs, pressed, released, n - 1);
        let cur = survivors(fs, pressed, released, n);
        assert forall|m: int| 0 <= m < cur.len() implies exists|k: int|
            0 <= k < n && #[trigger] cur[m] == fs[k] && !lifted(fs[k].id, pressed, released) by {
            if m < prev.len() {
                assert(cur[m] == prev[m]);
                let k = choose|k: int|
                    0 <= k < n - 1 && #[trigger] prev[m] == fs[k] && !lifted(fs[k].id, pressed, released);
                assert(cur[m] == fs[k]);
            } else {
                assert(cur[m] == fs[n - 1]);
            }
        }
    }
}

/// Retiring fingers keeps the rest well formed, and every unlifted finger survives.
proof fn lemma_survivors_wf<K>(fs: Seq<Finger<K>>, pressed: Seq<u64>, released: Seq<u64>, n: int)
    requires
        well_formed(fs),
        0 <= n <= fs.len(),
    ensures
        well_formed(survivors(fs, pressed, released, n)),
        forall|k: int|
            0 <= k < n && !lifted(#[trigger] fs[k].id, pressed, released) ==> survivors(
                fs,
                pressed,
                released,
                n,
            ).contains(fs[k]),
    decreases n,
{
    if n > 0 {
        lemma_survivors_wf(fs, pressed, released, n - 1);
        lemma_survivors_sub(fs, pressed, released, n - 1);
        let prev = survivors(fs, pressed, released, n - 1);
        let cur = survivors(fs, pressed, released, n);
        if !lifted(fs[n - 1].id, pressed, released) {
            let last = prev.len() as int;
            assert(cur[last] == fs[n - 1]);
            assert forall|i: int, j: int| 0 <= i < j < cur.len() implies #[trigger] cur[i].id
                != #[trigger] cur[j].id by {
                if j == last {
                    assert(cur[i] == prev[i]);
                    let k = choose|k: int|
                        0 <= k < n - 1 && #[trigger] prev[i] == fs[k] && !lifted(fs[k].id, pressed, released);
                    assert(fs[k].id != fs[n - 1].id);
                } else {
                    assert(cur[i] == prev[i]);
                    assert(cur[j] == prev[j]);
                }
            }
            assert forall|i: int, j: int|
                0 <= i < cur.len() && 0 <= j < cur.len() && #[trigger] cur[i].role == Role::Joystick
                    && #[trigger] cur[j].role == Role::Joystick implies i == j by {
                if i == last && j < last {
                    assert(cur[j] == prev[j]);
                    let k = choose|k: int|
                        0 <= k < n - 1 && #[trigger] prev[j] == fs[k] && !lifted(fs[k].id, pressed, released);
                    assert(fs[k].role == Role::Joystick);
                } else if j == last && i < last {
                    assert(cur[i] == prev[i]);
                    let k = choose|k: int|
                        0 <= k < n - 1 && #[trigger] prev[i] == fs[k] && !lifted(fs[k].id, pressed, released);
                    assert(fs[k].role == Role::Joystick);
                } else if i < last && j < last {
                    assert(cur[i] == prev[i]);
                    assert(cur[j] == prev[j]);
                }
            }
            assert forall|k: int|
                0 <= k < n && !lifted(#[trigger] fs[k].id, pressed, released) implies cur.contains(fs[k]) by {
                if k < n - 1 {
                    let m = choose|m: int| 0 <= m < prev.len() && prev[m] == fs[k];
                    assert(cur[m] == fs[k]);
                } else {
                    assert(cur[last] == fs[k]);
                }
            }
        }
    }
}

/// A touch id in a list of ids.
fn contains_id(ids: &Vec<u64>, id: u64) -> (r: bool)
    ensures
        r == ids@.contains(id),
{
    let mut i: usize = 0;
    while i < ids.len()
        invariant
            0 <= i <= ids.len(),
            forall|k: int| 0 <= k < i ==> ids@[k] != id,
        decreases ids.len() - i,
    {
        if ids[i] == id {
            return true;
        }
        i += 1;
    }
    false
}

/// The index of the finger tracking touch `id`.
fn index_of_id<K>(fs: &Vec<Finger<K>>, id: u64) -> (r: Option<usize>)
    ensures
        match r {
            Some(i) => i < fs@.len() && fs@[i as int].id == id,
            None => !has_id(fs@, id),
        },
{
    let mut i: usize = 0;
    while i < fs.len()
        invariant
            0 <= i <= fs.len(),
            forall|k: int| 0 <= k < i ==> fs@[k].id != id,
        decreases fs.len() - i,
    {
        if fs[i].id == id {
            return Some(i);
        }
        i += 1;
    }
    None
}

/// Is some finger holding `role`?
fn any_role<K>(fs: &Vec<Finger<K>>, role: Role) -> (r: bool)
    ensures
        r == has_role(fs@, role),
{
    let mut i: usize = 0;
    while i < fs.len()
        invariant
            0 <= i <= fs.len(),
            forall|k: int| 0 <= k < i ==> fs@[k].role != role,
        decreases fs.len() - i,
    {
        if fs[i].role == role {
            return true;
        }
        i += 1;
    }
    false
}

/// Does a touchdown count as over the UI, given what the UI's hit test found there: `None` for no
/// mouse-enabled frame, else whether the frame hit is the world frame. The world frame takes the
/// mouse, but its hits belong to the world: a swipe over open terrain must turn the camera.
pub fn over_ui(hit_is_world: Option<bool>) -> (r: bool)
    ensures
        r == (hit_is_world == Some(false)),
{
    match hit_is_world {
        Some(world) => !world,
        None => false,
    }
}

/// The role a touchdown gets, from where it landed and whether the stick is free.
pub fn classify_role(in_zone: bool, joystick_free: bool, ui_hidden: bool, over_ui: bool) -> (r: Role)
    ensures
        r == role_for(in_zone, joystick_free, ui_hidden, over_ui),
{
    if in_zone && joystick_free {
        Role::Joystick
    } else if !ui_hidden && over_ui {
        Role::Ui
    } else {
        Role::Look
    }
}

impl<K> View for Fingers<K> {
    type V = Seq<Finger<K>>;

    closed spec fn view(&self) -> Seq<Finger<K>> {
        self.active@
    }
}

impl<K> Fingers<K> {
    #[verifier::type_invariant]
    closed spec fn inv(&self) -> bool {
        well_formed(self.active@)
    }
}

impl<K: Copy> Fingers<K> {
    /// No finger down.
    pub fn new() -> (r: Self)
        ensures
            r@ == Seq::<Finger<K>>::empty(),
            well_formed(r@),
    {
        Fingers { active: Vec::new() }
    }

    /// Forget every finger: the window is gone or touch is switched off.
    pub fn clear(&mut self)
        ensures
            final(self)@ == Seq::<Finger<K>>::empty(),
    {
        self.active = Vec::new();
    }

    /// Every finger down, in the order they came down.
    pub fn active(&self) -> (r: &Vec<Finger<K>>)
        ensures
            r@ == self@,
            well_formed(self@),
    {
        proof {
            use_type_invariant(self);
        }
        &self.active
    }

    /// How many fingers are down.
    pub fn len(&self) -> (r: usize)
        ensures
            r == self@.len(),
    {
        self.active.len()
    }

    /// The finger tracking touch `id`.
    pub fn find(&self, id: u64) -> (r: Option<&Finger<K>>)
        ensures
            match r {
                Some(f) => f.id == id && exists|i: int| 0 <= i < self@.len() && self@[i] == *f,
                None => !has_id(self@, id),
            },
    {
        match index_of_id(&self.active, id) {
            Some(i) => {
                proof {
                    assert(self@[i as int] == self.active@[i as int]);
                }
                Some(&self.active[i])
            },
            None => None,
        }
    }

    /// Is some finger holding `role`?
    pub fn has_role(&self, role: Role) -> (r: bool)
        ensures
            r == has_role(self@, role),
    {
        any_role(&self.active, role)
    }

    /// The finger on the stick, if any: the stick is anchored where it came down.
    pub fn joystick_finger(&self) -> (r: Option<&Finger<K>>)
        ensures
            match r {
                Some(f) => f.role == Role::Joystick && exists|i: int|
                    0 <= i < self@.len() && self@[i] == *f,
                None => !has_role(self@, Role::Joystick),
            },
    {
        let mut i: usize = 0;
        while i < self.active.len()
            invariant
                0 <= i <= self.active@.len(),
                forall|k: int| 0 <= k < i ==> self.active@[k].role != Role::Joystick,
            decreases self.active@.len() - i,
        {
            if self.active[i].role == Role::Joystick {
                proof {
                    assert(self@[i as int] == self.active@[i as int]);
                }
                return Some(&self.active[i]);
            }
            i += 1;
        }
        None
    }

    /// Replace the kinematics of finger `i`; its touch id and role stay.
    pub fn set_kin(&mut self, i: usize, kin: K)
        requires
            i < old(self)@.len(),
        ensures
            final(self)@ == old(self)@.update(
                i as int,
                Finger { id: old(self)@[i as int].id, role: old(self)@[i as int].role, kin },
            ),
            same_identities(old(self)@, final(self)@),
            well_formed(final(self)@),
    {
        proof {
            use_type_invariant(&*self);
        }
        let f = self.active[i];
        let ghost before = self.active@;
        let mut fs: Vec<Finger<K>> = Vec::new();
        std::mem::swap(&mut fs, &mut self.active);
        fs.set(i, Finger { id: f.id, role: f.role, kin });
        proof {
            let after = fs@;
            assert forall|a: int, b: int| 0 <= a < b < after.len() implies #[trigger] after[a].id
                != #[trigger] after[b].id by {
                assert(after[a].id == before[a].id);
                assert(after[b].id == before[b].id);
            }
            assert forall|a: int, b: int|
                0 <= a < after.len() && 0 <= b < after.len() && #[trigger] after[a].role
                    == Role::Joystick && #[trigger] after[b].role == Role::Joystick implies a == b by {
                assert(after[a].role == before[a].role);
                assert(after[b].role == before[b].role);
            }
        }
        self.active = fs;
    }

    /// Claim this frame's touchdowns, in order. A touch already tracked is skipped; a new one
    /// gets its role once, here, and keeps it until it lifts.
    pub fn claim(&mut self, presses: &Vec<Press<K>>, ui_hidden: bool)
        ensures
            final(self)@ == claim_all(old(self)@, presses@, ui_hidden),
            final(self)@.take(old(self)@.len() as int) == old(self)@,
            forall|k: int| 0 <= k < presses@.len() ==> has_id(final(self)@, #[trigger] presses@[k].id),
            all_made(final(self)@, old(self)@.len() as int, presses@, ui_hidden),
            forall|j1: int, j2: int, k1: int, k2: int|
                old(self)@.len() <= j1 < j2 < final(self)@.len() && #[trigger] first_press(
                    presses@,
                    k1,
                    final(self)@[j1].id,
                ) && #[trigger] first_press(presses@, k2, final(self)@[j2].id) ==> k1 < k2,
            well_formed(final(self)@),
    {
        proof {
            use_type_invariant(&*self);
        }
        let ghost start = self.active@;
        let mut fs: Vec<Finger<K>> = Vec::new();
        std::mem::swap(&mut fs, &mut self.active);
        let mut i: usize = 0;
        while i < presses.len()
            invariant
                0 <= i <= presses@.len(),
                well_formed(start),
                fs@ == claim_all(start, presses@.take(i as int), ui_hidden),
            decreases presses@.len() - i,
        {
            proof {
                lemma_claim_all(start, presses@.take(i as int), ui_hidden);
            }
            let p = presses[i];
            if index_of_id(&fs, p.id).is_none() {
                let joystick_free = !any_role(&fs, Role::Joystick);
                let role = classify_role(p.in_zone, joystick_free, ui_hidden, p.over_ui);
                fs.push(Finger { id: p.id, role, kin: p.kin });
            }
            proof {
                assert(presses@.take(i + 1).drop_last() =~= presses@.take(i as int));
            }
            i += 1;
        }
        proof {
            assert(presses@.take(presses@.len() as int) =~= presses@);
            lemma_claim_all(start, presses@, ui_hidden);
            lemma_claim_all_made(start, presses@, ui_hidden);
            lemma_claim_all_order(start, presses@, ui_hidden);
        }
        self.active = fs;
    }

    /// What this frame's fingers publish: the pointer finger (the last UI finger), whether a UI
    /// finger came down this frame, every look finger, and the stick finger.
    pub fn publish(&self, just_pressed: &Vec<u64>) -> (p: Publish)
        ensures
            match p.pointer {
                Some(i) => i < self@.len() && self@[i as int].role == Role::Ui && forall|j: int|
                    i < j < self@.len() ==> #[trigger] self@[j].role != Role::Ui,
                None => !has_role(self@, Role::Ui),
            },
            p.pointer_just_pressed == exists|i: int|
                0 <= i < self@.len() && #[trigger] self@[i].role == Role::Ui && just_pressed@.contains(
                    self@[i].id,
                ),
            p.look@ == role_indices(self@, Role::Look, self@.len() as int),
            forall|k: int|
                0 <= k < self@.len() ==> (#[trigger] self@[k].role == Role::Look <==> p.look@.contains(
                    k as usize,
                )),
            match p.joystick {
                Some(i) => i < self@.len() && self@[i as int].role == Role::Joystick && forall|j: int|
                    0 <= j < self@.len() && #[trigger] self@[j].role == Role::Joystick ==> j == i,
                None => !has_role(self@, Role::Joystick),
            },
    {
        proof {
            use_type_invariant(self);
        }
        let fs = &self.active;
        let mut pointer: Option<usize> = None;
        let mut pointer_just_pressed = false;
        let mut look: Vec<usize> = Vec::new();
        let mut joystick: Option<usize> = None;
        let mut i: usize = 0;
        while i < fs.len()
            invariant
                0 <= i <= fs@.len(),
                fs@ == self@,
                match pointer {
                    Some(k) => k < i && fs@[k as int].role == Role::Ui && forall|j: int|
                        k < j < i ==> #[trigger] fs@[j].role != Role::Ui,
                    None => forall|j: int| 0 <= j < i ==> #[trigger] fs@[j].role != Role::Ui,
                },
                pointer_just_pressed == exists|j: int|
                    0 <= j < i && #[trigger] fs@[j].role == Role::Ui && just_pressed@.contains(fs@[j].id),
                look@ == role_indices(fs@, Role::Look, i as int),
                match joystick {
                    Some(k) => k < i && fs@[k as int].role == Role::Joystick,
                    None => forall|j: int| 0 <= j < i ==> #[trigger] fs@[j].role != Role::Joystick,
                },
            decreases fs@.len() - i,
        {
            let f = fs[i];
            match f.role {
                Role::Ui => {
                    pointer = Some(i);
                    if contains_id(just_pressed, f.id) {
                        pointer_just_pressed = true;
                    }
                },
                Role::Look => {
                    look.push(i);
                },
                Role::Joystick => {
                    joystick = Some(i);
                },
            }
            i += 1;
        }
        proof {
            lemma_role_indices(fs@, Role::Look, fs@.len() as int);
        }
        Publish { pointer, pointer_just_pressed, look, joystick }
    }

    /// Retire every finger that lifted this frame, after its release has been published: the
    /// rest stay, in order and as they were. Hands back the release position of the UI pointer,
    /// the world-tap candidates, and whether the stick let go.
    #[verifier::rlimit(40)]
    pub fn retire(&mut self, pressed: &Vec<u64>, released: &Vec<u64>) -> (r: Retired<K>)
        ensures
            final(self)@ == survivors(old(self)@, pressed@, released@, old(self)@.len() as int),
            forall|i: int|
                0 <= i < final(self)@.len() ==> !lifted(#[trigger] final(self)@[i].id, pressed@, released@),
            forall|k: int|
                0 <= k < old(self)@.len() && !lifted(#[trigger] old(self)@[k].id, pressed@, released@)
                    ==> final(self)@.contains(old(self)@[k]),
            r.taps@ == lifted_looks(old(self)@, pressed@, released@, old(self)@.len() as int),
            exists|idx: Seq<int>|
                #[trigger] lists_lifted_looks(
                    old(self)@,
                    pressed@,
                    released@,
                    old(self)@.len() as int,
                    r.taps@,
                    idx,
                ),
            exists|idx: Seq<int>|
                #[trigger] lists_survivors(
                    old(self)@,
                    pressed@,
                    released@,
                    old(self)@.len() as int,
                    final(self)@,
                    idx,
                ),
            match r.pointer_release {
                Some(kin) => exists|i: int|
                    0 <= i < old(self)@.len() && #[trigger] old(self)@[i].role == Role::Ui && lifted(
                        old(self)@[i].id,
                        pressed@,
                        released@,
                    ) && old(self)@[i].kin == kin && forall|j: int|
                        i < j < old(self)@.len() ==> !(#[trigger] old(self)@[j].role == Role::Ui
                            && lifted(old(self)@[j].id, pressed@, released@)),
                None => forall|i: int|
                    0 <= i < old(self)@.len() ==> !(#[trigger] old(self)@[i].role == Role::Ui && lifted(
                        old(self)@[i].id,
                        pressed@,
                        released@,
                    )),
            },
            r.joystick_released == exists|i: int|
                0 <= i < old(self)@.len() && #[trigger] old(self)@[i].role == Role::Joystick && lifted(
                    old(self)@[i].id,
                    pressed@,
                    released@,
                ),
            well_formed(final(self)@),
    {
        proof {
            use_type_invariant(&*self);
        }
        let ghost pr = pressed@;
        let ghost rel = released@;
        let mut fs: Vec<Finger<K>> = Vec::new();
        std::mem::swap(&mut fs, &mut self.active);
        let ghost start = fs@;
        let mut keep: Vec<Finger<K>> = Vec::new();
        let mut taps: Vec<K> = Vec::new();
        let mut pointer_release: Option<K> = None;
        let ghost mut release_at: int = -1;
        let mut joystick_released = false;
        let mut i: usize = 0;
        while i < fs.len()
            invariant
                0 <= i <= fs@.len(),
                fs@ == start,
                pr == pressed@,
                rel == released@,
                keep@ == survivors(start, pr, rel, i as int),
                taps@ == lifted_looks(start, pr, rel, i as int),
                match pointer_release {
                    Some(kin) => 0 <= release_at < i && start[release_at].role == Role::Ui && lifted(
                        start[release_at].id,
                        pr,
                        rel,
                    ) && start[release_at].kin == kin && forall|j: int|
                        release_at < j < i ==> !(#[trigger] start[j].role == Role::Ui && lifted(
                            start[j].id,
                            pr,
                            rel,
                        )),
                    None => forall|j: int|
                        0 <= j < i ==> !(#[trigger] start[j].role == Role::Ui && lifted(start[j].id, pr, rel)),
                },
                joystick_released == exists|j: int|
                    0 <= j < i && #[trigger] start[j].role == Role::Joystick && lifted(start[j].id, pr, rel),
            decreases fs@.len() - i,
        {
            let f = fs[i];
            let gone = contains_id(released, f.id) || !contains_id(pressed, f.id);
            if gone {
                match f.role {
                    Role::Ui => {
                        pointer_release = Some(f.kin);
                        proof {
                            release_at = i as int;
                        }
                    },
                    Role::Look => {
                        taps.push(f.kin);
                    },
                    Role::Joystick => {
                        joystick_released = true;
                    },
                }
            } else {
                keep.push(f);
            }
            i += 1;
        }
        let ghost mut tap_idx: Seq<int> = Seq::empty();
        proof {
            tap_idx = lemma_lifted_looks_listed(start, pr, rel, start.len() as int);
            let keep_idx = lemma_survivors_listed(start, pr, rel, start.len() as int);
            assert(lists_lifted_looks(start, pr, rel, start.len() as int, taps@, tap_idx));
            assert(lists_survivors(start, pr, rel, start.len() as int, keep@, keep_idx));
            lemma_survivors_wf(start, pr, rel, start.len() as int);
            lemma_survivors_sub(start, pr, rel, start.len() as int);
            let fin = keep@;
            assert forall|k: int| 0 <= k < fin.len() implies !lifted(#[trigger] fin[k].id, pr, rel) by {
                let j = choose|j: int|
                    0 <= j < start.len() && #[trigger] fin[k] == start[j] && !lifted(start[j].id, pr, rel);
            }
        }
        self.active = keep;
        let r = Retired { pointer_release, taps, joystick_released };
        proof {
            assert(r.taps@ == taps@);
            assert(lists_lifted_looks(old(self)@, pressed@, released@, old(self)@.len() as int, r.taps@, tap_idx));
        }
        r
    }
}

} // verus!
