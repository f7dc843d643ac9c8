//! Where world data is kept and versioned.

use vstd::prelude::*;

use crate::fabric::handler::{HandlerView, Rule};
use crate::fabric::operator::{Operator, OperatorView};
use crate::id::EntityId;
use crate::mob::{Mob, MobView};
use crate::realm::{Realm, RealmView};
use crate::seqs;
use crate::sorted_map;
use crate::text;
use crate::world::{Room, RoomView, World};

pub mod layout;
pub mod memory;

pub use memory::MemoryStore;

verus! {

/// Why a store could not do what it was asked.
#[derive(Debug, PartialEq)]
pub enum StoreError {
    Io(String),
    Parse(String),
    Git(String),
}

/// Names a commit.
#[derive(Debug, PartialEq)]
pub struct CommitId(pub String);

impl Clone for CommitId {
    fn clone(&self) -> (r: CommitId)
        ensures
            r.0@ == self.0@,
    {
        CommitId(self.0.clone())
    }
}

// ---------------------------------------------------------------------------
// What a store holds
// ---------------------------------------------------------------------------

/// What a commit holds: all that the store held when it was made.
#[verifier::ext_equal]
pub struct Snapshot {
    pub rooms: Map<text::Text, RoomView>,
    pub mobs: Map<text::Text, MobView>,
    pub rules: Seq<HandlerView>,
    pub operators: Seq<OperatorView>,
}

/// A commit: its message, its time and what it holds.
#[verifier::ext_equal]
pub struct Commit {
    pub message: text::Text,
    pub time: i64,
    pub held: Snapshot,
}

/// What a store holds: entities at their ids, the rules and operators, and its
/// commits, oldest first.
#[verifier::ext_equal]
pub struct Stored {
    pub rooms: Map<text::Text, RoomView>,
    pub mobs: Map<text::Text, MobView>,
    pub rules: Seq<HandlerView>,
    pub operators: Seq<OperatorView>,
    pub log: Seq<Commit>,
}

/// `base` with the items put, one after the other, each at its own id.
pub open spec fn put_all<W>(
    base: Map<text::Text, W>,
    items: Seq<W>,
    id: spec_fn(W) -> text::Text,
) -> Map<text::Text, W>
    decreases items.len(),
{
    if items.len() == 0 {
        base
    } else {
        put_all(base, items.drop_last(), id).insert(id(items.last()), items.last())
    }
}

/// The id of a room.
pub open spec fn room_id() -> spec_fn(RoomView) -> text::Text {
    |r: RoomView| r.id
}

/// The id of a mob.
pub open spec fn mob_id() -> spec_fn(MobView) -> text::Text {
    |m: MobView| m.id
}

/// Whether everything in `m` is kept at its own id.
pub open spec fn at_own_id<W>(m: Map<text::Text, W>, id: spec_fn(W) -> text::Text) -> bool {
    forall|k: text::Text| #[trigger] m.contains_key(k) ==> id(m[k]) == k
}

impl Stored {
    /// Nothing at all.
    pub open spec fn empty() -> Stored {
        Stored {
            rooms: Map::empty(),
            mobs: Map::empty(),
            rules: seq![],
            operators: seq![],
            log: seq![],
        }
    }

    pub open spec fn with_room(self, room: RoomView) -> Stored {
        Stored { rooms: self.rooms.insert(room.id, room), ..self }
    }

    pub open spec fn with_mob(self, mob: MobView) -> Stored {
        Stored { mobs: self.mobs.insert(mob.id, mob), ..self }
    }

    pub open spec fn without_mob(self, id: text::Text) -> Stored {
        Stored { mobs: self.mobs.remove(id), ..self }
    }

    pub open spec fn with_rules(self, rules: Seq<HandlerView>) -> Stored {
        Stored { rules, ..self }
    }

    pub open spec fn with_operators(self, operators: Seq<OperatorView>) -> Stored {
        Stored { operators, ..self }
    }

    /// What a commit made now would hold.
    pub open spec fn snapshot(self) -> Snapshot {
        Snapshot {
            rooms: self.rooms,
            mobs: self.mobs,
            rules: self.rules,
            operators: self.operators,
        }
    }

    /// After a commit, which holds all that was saved before it.
    pub open spec fn committed(self, message: text::Text, time: i64) -> Stored {
        Stored { log: self.log.push(Commit { message, time, held: self.snapshot() }), ..self }
    }

    /// The messages of the commits, oldest first.
    pub open spec fn messages(self) -> Seq<text::Text> {
        self.log.map_values(|c: Commit| c.message)
    }

    /// Whether what is held is finite and kept at its own ids.
    pub open spec fn consistent(self) -> bool {
        &&& self.rooms.dom().finite()
        &&& self.mobs.dom().finite()
        &&& at_own_id(self.rooms, room_id())
        &&& at_own_id(self.mobs, mob_id())
    }

    /// What is held once `realm` has been saved as a whole: its rooms are put,
    /// mobs that are no longer in it are gone, its mobs are put, and its rules
    /// and operators replace what was there.
    pub open spec fn saved(self, realm: RealmView) -> Stored {
        Stored {
            rooms: put_all(
                self.rooms,
                sorted_map::values_in_order::<EntityId, RoomView>(realm.world),
                room_id(),
            ),
            mobs: put_all(
                self.mobs.restrict(realm.mobs.dom()),
                sorted_map::values_in_order::<EntityId, MobView>(realm.mobs),
                mob_id(),
            ),
            rules: realm.rules,
            operators: realm.operators,
            log: self.log,
        }
    }

    /// The realm that is loaded from what is held. The messages are not held:
    /// they are those of a new realm.
    pub open spec fn realm(self) -> RealmView {
        RealmView {
            mobs: self.mobs,
            rules: self.rules,
            operators: self.operators,
            ..RealmView::of_world(self.rooms)
        }
    }
}

proof fn lemma_put_all_push<W>(
    base: Map<text::Text, W>,
    items: Seq<W>,
    item: W,
    id: spec_fn(W) -> text::Text,
)
    ensures
        put_all(base, items.push(item), id) == put_all(base, items, id).insert(id(item), item),
{
    assert(items.push(item).drop_last() =~= items);
}

/// Putting everything of a map whose entries are at their own ids is laying the
/// map over what was there.
pub proof fn lemma_put_all_of_map<W>(
    base: Map<text::Text, W>,
    m: Map<text::Text, W>,
    id: spec_fn(W) -> text::Text,
)
    requires
        m.dom().finite(),
        at_own_id(m, id),
    ensures
        put_all(base, sorted_map::values_in_order::<EntityId, W>(m), id)
            == base.union_prefer_right(m),
{
    sorted_map::lemma_finite_map_is_listed::<EntityId, W>(m);
    let keys = sorted_map::in_order::<EntityId, W>(m);
    let items = sorted_map::values_in_order::<EntityId, W>(m);
    lemma_put_all_prefix(base, m, id, items.len() as int);
    assert(items.take(items.len() as int) =~= items);
    assert(keys.take(keys.len() as int) =~= keys);
    assert(base.union_prefer_right(m.restrict(keys.to_set())) =~= base.union_prefer_right(m));
}

proof fn lemma_put_all_prefix<W>(
    base: Map<text::Text, W>,
    m: Map<text::Text, W>,
    id: spec_fn(W) -> text::Text,
    n: int,
)
    requires
        sorted_map::lists_keys::<EntityId, W>(sorted_map::in_order::<EntityId, W>(m), m),
        at_own_id(m, id),
        0 <= n <= sorted_map::in_order::<EntityId, W>(m).len(),
    ensures
        put_all(base, sorted_map::values_in_order::<EntityId, W>(m).take(n), id)
            == base.union_prefer_right(
            m.restrict(sorted_map::in_order::<EntityId, W>(m).take(n).to_set()),
        ),
    decreases n,
{
    let keys = sorted_map::in_order::<EntityId, W>(m);
    let items = sorted_map::values_in_order::<EntityId, W>(m);
    if n == 0 {
        assert(base.union_prefer_right(m.restrict(keys.take(0).to_set())) =~= base);
    } else {
        lemma_put_all_prefix(base, m, id, n - 1);
        let k = keys[n - 1];
        assert(keys.contains(k));
        assert(m.contains_key(k));
        assert(items.take(n) =~= items.take(n - 1).push(m[k]));
        lemma_put_all_push(base, items.take(n - 1), m[k], id);
        let before = keys.take(n - 1);
        let now = keys.take(n);
        assert(now =~= before.push(k));
        assert forall|x: text::Text| #![auto] now.contains(x) <==> before.contains(x) || x == k by {
            seqs::lemma_push_contains(before, k, x);
        }
        assert(base.union_prefer_right(m.restrict(before.to_set())).insert(k, m[k])
            =~= base.union_prefer_right(m.restrict(now.to_set())));
    }
}

// ---------------------------------------------------------------------------
// How a store is used
// ---------------------------------------------------------------------------

/// What can be asked of a store.
pub enum Call {
    SaveRoom(RoomView),
    SaveMob(MobView),
    RemoveMob(text::Text),
    SaveRules(Seq<HandlerView>),
    SaveOperators(Seq<OperatorView>),
    Commit { message: text::Text, time: i64 },
    LoadAll,
    LoadMobs,
    LoadRules,
    LoadOperators,
}

/// What a store can answer.
pub enum Reply {
    Done,
    Committed(text::Text),
    Rooms(Map<text::Text, RoomView>),
    Mobs(Seq<MobView>),
    Rules(Seq<HandlerView>),
    Operators(Seq<OperatorView>),
    Failed(StoreError),
}

/// How a store behaves: whether in a state it may answer a call with that reply,
/// and be in that state afterwards.
pub type Conduct = spec_fn(int, Call, Reply, int) -> bool;

/// A call, and the reply with which it succeeds.
pub type Step = (Call, Reply);

pub open spec fn done_reply(r: Result<(), StoreError>) -> Reply {
    match r {
        Ok(_) => Reply::Done,
        Err(e) => Reply::Failed(e),
    }
}

pub open spec fn commit_reply(r: Result<CommitId, StoreError>) -> Reply {
    match r {
        Ok(id) => Reply::Committed(id.0@),
        Err(e) => Reply::Failed(e),
    }
}

pub open spec fn rooms_reply(r: Result<World, StoreError>) -> Reply {
    match r {
        Ok(world) => Reply::Rooms(world@),
        Err(e) => Reply::Failed(e),
    }
}

pub open spec fn mobs_reply(r: Result<Vec<Mob>, StoreError>) -> Reply {
    match r {
        Ok(mobs) => Reply::Mobs(text::views(mobs@)),
        Err(e) => Reply::Failed(e),
    }
}

pub open spec fn rules_reply(r: Result<Vec<Rule>, StoreError>) -> Reply {
    match r {
        Ok(rules) => Reply::Rules(text::views(rules@)),
        Err(e) => Reply::Failed(e),
    }
}

pub open spec fn operators_reply(r: Result<Vec<Operator>, StoreError>) -> Reply {
    match r {
        Ok(operators) => Reply::Operators(text::views(operators@)),
        Err(e) => Reply::Failed(e),
    }
}

/// What went wrong, if anything did.
pub open spec fn failure<T>(r: Result<T, StoreError>) -> Option<StoreError> {
    match r {
        Ok(_) => None,
        Err(e) => Some(e),
    }
}

/// Whether a store of this conduct was put through the calls of `plan`, each once
/// and in order, from one of `states` to the next. Where nothing failed it was put
/// through all of them. Otherwise the last of those it was put through failed,
/// with the error `failed`.
pub open spec fn carried_out(
    conduct: Conduct,
    plan: Seq<Step>,
    states: Seq<int>,
    failed: Option<StoreError>,
) -> bool {
    &&& 1 <= states.len() <= plan.len() + 1
    &&& failed is None ==> states.len() == plan.len() + 1
    &&& failed is Some ==> states.len() > 1
    &&& forall|i: int|
        #![trigger plan[i]]
        0 <= i < states.len() - 1 ==> conduct(
            states[i],
            plan[i].0,
            if failed is Some && i == states.len() - 2 {
                Reply::Failed(failed->0)
            } else {
                plan[i].1
            },
            states[i + 1],
        )
}

/// Putting the rooms of a realm.
pub open spec fn room_steps(realm: RealmView) -> Seq<Step> {
    sorted_map::values_in_order::<EntityId, RoomView>(realm.world).map_values(
        |room: RoomView| (Call::SaveRoom(room), Reply::Done),
    )
}

/// Whether a mob is not in the realm.
pub open spec fn stale(realm: RealmView) -> spec_fn(MobView) -> bool {
    |mob: MobView| !realm.mobs.contains_key(mob.id)
}

/// The removal of a mob.
pub open spec fn removal() -> spec_fn(MobView) -> Step {
    |mob: MobView| (Call::RemoveMob(mob.id), Reply::Done)
}

/// Removing those of the known mobs that are not in the realm.
pub open spec fn removal_steps(realm: RealmView, known: Seq<MobView>) -> Seq<Step> {
    known.filter(stale(realm)).map_values(removal())
}

/// Putting the mobs of a realm.
pub open spec fn mob_steps(realm: RealmView) -> Seq<Step> {
    sorted_map::values_in_order::<EntityId, MobView>(realm.mobs).map_values(
        |mob: MobView| (Call::SaveMob(mob), Reply::Done),
    )
}

/// What saving a realm asks of a store that knows these mobs.
pub open spec fn save_plan(realm: RealmView, known: Seq<MobView>) -> Seq<Step> {
    room_steps(realm).push((Call::LoadMobs, Reply::Mobs(known))) + removal_steps(realm, known)
        + mob_steps(realm).push((Call::SaveRules(realm.rules), Reply::Done)).push(
        (Call::SaveOperators(realm.operators), Reply::Done),
    )
}

/// What saving a realm and committing it asks of a store that knows these mobs
/// and names the commit so: the commit comes last.
pub open spec fn keep_plan(
    realm: RealmView,
    known: Seq<MobView>,
    message: text::Text,
    time: i64,
    id: text::Text,
) -> Seq<Step> {
    save_plan(realm, known).push((Call::Commit { message, time }, Reply::Committed(id)))
}

/// Whether a store that was asked to save a realm went from one state to another,
/// and failed that way or not.
pub open spec fn saving(
    conduct: Conduct,
    from: int,
    realm: RealmView,
    to: int,
    failed: Option<StoreError>,
) -> bool {
    exists|known: Seq<MobView>, states: Seq<int>|
        #[trigger] carried_out(conduct, save_plan(realm, known), states, failed) && states.first()
            == from && states.last() == to
}

/// Whether a store that was asked to save a realm, and then to commit, went from
/// one state to another, and failed that way or not.
pub open spec fn keeping(
    conduct: Conduct,
    from: int,
    realm: RealmView,
    message: text::Text,
    time: i64,
    to: int,
    failed: Option<StoreError>,
) -> bool {
    exists|known: Seq<MobView>, id: text::Text, states: Seq<int>|
        #[trigger] carried_out(conduct, keep_plan(realm, known, message, time, id), states, failed)
            && states.first() == from && states.last() == to
}

/// What loading a realm asks of a store that holds this.
pub open spec fn load_plan(
    rooms: Map<text::Text, RoomView>,
    mobs: Seq<MobView>,
    rules: Seq<HandlerView>,
    operators: Seq<OperatorView>,
) -> Seq<Step> {
    seq![
        (Call::LoadAll, Reply::Rooms(rooms)),
        (Call::LoadMobs, Reply::Mobs(mobs)),
        (Call::LoadRules, Reply::Rules(rules)),
        (Call::LoadOperators, Reply::Operators(operators)),
    ]
}

/// The realm that is made of what was loaded.
pub open spec fn realm_of(
    rooms: Map<text::Text, RoomView>,
    mobs: Seq<MobView>,
    rules: Seq<HandlerView>,
    operators: Seq<OperatorView>,
) -> RealmView {
    RealmView {
        mobs: put_all(Map::empty(), mobs, mob_id()),
        rules,
        operators,
        ..RealmView::of_world(rooms)
    }
}

/// One state, `n` times.
pub open spec fn staying(at: int, n: nat) -> Seq<int> {
    Seq::new(n, |i: int| at)
}

/// Whether a store that was asked for its realm in the state `at`, where it stays,
/// answered `r`: a realm made of what it gave, or the error of what failed.
pub open spec fn loading(conduct: Conduct, at: int, r: Result<RealmView, StoreError>) -> bool {
    exists|
        rooms: Map<text::Text, RoomView>,
        mobs: Seq<MobView>,
        rules: Seq<HandlerView>,
        operators: Seq<OperatorView>,
        n: nat,
    |
        #[trigger] carried_out(
            conduct,
            load_plan(rooms, mobs, rules, operators),
            staying(at, n),
            failure(r),
        ) && (r matches Ok(realm) ==> realm == realm_of(rooms, mobs, rules, operators))
}

/// A loaded realm as the contracts see it.
pub open spec fn realm_result(r: Result<Realm, StoreError>) -> Result<RealmView, StoreError> {
    match r {
        Ok(realm) => Ok(realm@),
        Err(e) => Err(e),
    }
}

/// Loading stops where the `k`-th call fails.
proof fn lemma_load_stops(
    conduct: Conduct,
    at: int,
    rooms: Map<text::Text, RoomView>,
    mobs: Seq<MobView>,
    rules: Seq<HandlerView>,
    operators: Seq<OperatorView>,
    k: int,
    e: StoreError,
)
    requires
        0 <= k < 4,
        forall|i: int|
            #![trigger load_plan(rooms, mobs, rules, operators)[i]]
            0 <= i < k ==> conduct(
                at,
                load_plan(rooms, mobs, rules, operators)[i].0,
                load_plan(rooms, mobs, rules, operators)[i].1,
                at,
            ),
        conduct(at, load_plan(rooms, mobs, rules, operators)[k].0, Reply::Failed(e), at),
    ensures
        loading(conduct, at, Err(e)),
{
    let plan = load_plan(rooms, mobs, rules, operators);
    let states = staying(at, (k + 2) as nat);
    assert(carried_out(conduct, plan, states, Some(e)));
    assert(failure(Err::<RealmView, StoreError>(e)) == Some(e));
}

/// One more call succeeds.
proof fn lemma_goes_on(conduct: Conduct, plan: Seq<Step>, states: Seq<int>, step: Step, to: int)
    requires
        carried_out(conduct, plan, states, None),
        conduct(states.last(), step.0, step.1, to),
    ensures
        carried_out(conduct, plan.push(step), states.push(to), None),
        states.push(to).first() == states.first(),
        states.push(to).last() == to,
{
    let more = plan.push(step);
    let through = states.push(to);
    assert forall|i: int| #![trigger more[i]] 0 <= i < through.len() - 1 implies conduct(
        through[i],
        more[i].0,
        more[i].1,
        through[i + 1],
    ) by {
        if i < plan.len() {
            assert(more[i] == plan[i]);
        }
    }
}

/// One more call fails, and nothing further of the plan is done.
proof fn lemma_stops(
    conduct: Conduct,
    plan: Seq<Step>,
    states: Seq<int>,
    step: Step,
    to: int,
    e: StoreError,
    whole: Seq<Step>,
)
    requires
        carried_out(conduct, plan, states, None),
        conduct(states.last(), step.0, Reply::Failed(e), to),
        plan.push(step).is_prefix_of(whole),
    ensures
        carried_out(conduct, whole, states.push(to), Some(e)),
        states.push(to).first() == states.first(),
        states.push(to).last() == to,
{
    let through = states.push(to);
    let more = plan.push(step);
    assert forall|i: int| #![trigger whole[i]] 0 <= i < through.len() - 1 implies conduct(
        through[i],
        whole[i].0,
        if i == through.len() - 2 {
            Reply::Failed(e)
        } else {
            whole[i].1
        },
        through[i + 1],
    ) by {
        assert(whole[i] == more[i]);
        if i < plan.len() {
            assert(more[i] == plan[i]);
        }
    }
}

/// What failed early failed whatever was planned after it.
pub proof fn lemma_failure_ends_the_plan(
    conduct: Conduct,
    plan: Seq<Step>,
    states: Seq<int>,
    e: StoreError,
    step: Step,
)
    requires
        carried_out(conduct, plan, states, Some(e)),
    ensures
        carried_out(conduct, plan.push(step), states, Some(e)),
{
    let more = plan.push(step);
    assert forall|i: int| #![trigger more[i]] 0 <= i < states.len() - 1 implies conduct(
        states[i],
        more[i].0,
        if i == states.len() - 2 {
            Reply::Failed(e)
        } else {
            more[i].1
        },
        states[i + 1],
    ) by {
        assert(more[i] == plan[i]);
    }
}

/// Saving and then committing, with the outcome of each, is keeping.
pub proof fn lemma_saving_and_committing_is_keeping(
    conduct: Conduct,
    from: int,
    realm: RealmView,
    mid: int,
    saved: Option<StoreError>,
    message: text::Text,
    time: i64,
    to: int,
    committed: Result<CommitId, StoreError>,
)
    requires
        saving(conduct, from, realm, mid, saved),
        saved is None ==> conduct(mid, Call::Commit { message, time }, commit_reply(committed), to),
    ensures
        saved is Some ==> keeping(conduct, from, realm, message, time, mid, saved),
        saved is None ==> keeping(conduct, from, realm, message, time, to, failure(committed)),
{
    let (known, states) = choose|known: Seq<MobView>, states: Seq<int>|
        #[trigger] carried_out(conduct, save_plan(realm, known), states, saved) && states.first()
            == from && states.last() == mid;
    let plan = save_plan(realm, known);
    let id = if committed is Ok {
        committed->Ok_0.0@
    } else {
        seq![]
    };
    let step = (Call::Commit { message, time }, Reply::Committed(id));
    assert(keep_plan(realm, known, message, time, id) == plan.push(step));
    match saved {
        Some(e) => {
            lemma_failure_ends_the_plan(conduct, plan, states, e, step);
            assert(carried_out(conduct, keep_plan(realm, known, message, time, id), states, saved));
        },
        None => {
            match committed {
                Ok(_) => {
                    lemma_goes_on(conduct, plan, states, step, to);
                },
                Err(e) => {
                    lemma_stops(conduct, plan, states, step, to, e, plan.push(step));
                },
            }
            assert(carried_out(
                conduct,
                keep_plan(realm, known, message, time, id),
                states.push(to),
                failure(committed),
            ));
        },
    }
}

// ---------------------------------------------------------------------------
// The store
// ---------------------------------------------------------------------------

/// A place authored world data is persisted and versioned. Core logic depends
/// only on this trait; implementations own all filesystem/git contact.
///
/// An implementation says whether it keeps what it is told (`faithful`) and
/// whether it can fail (`unfailing`); what its methods promise rests on that. It
/// may also say how it behaves (`conduct`) from state to state. One that says
/// nothing promises nothing, but what is done with it is told by its calls and
/// replies all the same. Of what a store holds after it failed, nothing is said.
pub trait WorldStore {
    /// What the store holds.
    open spec fn contents(&self) -> Stored {
        Stored::empty()
    }

    /// Whether the store holds what it was given, and gives what it holds.
    open spec fn faithful(&self) -> bool {
        false
    }

    /// Whether the store always succeeds.
    open spec fn unfailing(&self) -> bool {
        false
    }

    /// The state that the store is in. What it stands for is the store's business.
    open spec fn state(&self) -> int {
        0
    }

    /// How the store behaves, whatever it is asked. It keeps to that.
    open spec fn conduct(&self) -> Conduct {
        |before: int, call: Call, reply: Reply, after: int| true
    }

    /// Persist a single room (one file per entity, in git-backed impls).
    fn save_room(&mut self, room: &Room) -> (r: Result<(), StoreError>)
        ensures
            final(self).conduct() == old(self).conduct(),
            (old(self).conduct())(
                old(self).state(),
                Call::SaveRoom(room@),
                done_reply(r),
                final(self).state(),
            ),
            old(self).unfailing() ==> r is Ok && final(self).unfailing(),
            old(self).faithful() ==> final(self).faithful() && (r is Ok ==> final(self).contents()
                == old(self).contents().with_room(room@)),
    ;

    /// Load the entire world from storage.
    fn load_all(&self) -> (r: Result<World, StoreError>)
        ensures
            (self.conduct())(self.state(), Call::LoadAll, rooms_reply(r), self.state()),
            self.unfailing() ==> r is Ok,
            self.faithful() ==> self.contents().consistent() && (r matches Ok(world) ==> world@
                == self.contents().rooms),
    ;

    /// Commit all pending saves with `message`, timestamped at `epoch_seconds`.
    fn commit(&mut self, message: &str, epoch_seconds: i64) -> (r: Result<CommitId, StoreError>)
        ensures
            final(self).conduct() == old(self).conduct(),
            (old(self).conduct())(
                old(self).state(),
                Call::Commit { message: message@, time: epoch_seconds },
                commit_reply(r),
                final(self).state(),
            ),
            old(self).unfailing() ==> r is Ok && final(self).unfailing(),
            old(self).faithful() ==> final(self).faithful() && (r is Ok ==> final(self).contents()
                == old(self).contents().committed(message@, epoch_seconds)),
    ;

    /// Commit messages recorded so far, oldest first.
    fn commit_log(&self) -> (r: Vec<String>)
        ensures
            self.faithful() ==> text::views(r@) == self.contents().messages(),
    ;

    /// Persist a single mob.
    fn save_mob(&mut self, mob: &Mob) -> (r: Result<(), StoreError>)
        ensures
            final(self).conduct() == old(self).conduct(),
            (old(self).conduct())(
                old(self).state(),
                Call::SaveMob(mob@),
                done_reply(r),
                final(self).state(),
            ),
            old(self).unfailing() ==> r is Ok && final(self).unfailing(),
            old(self).faithful() ==> final(self).faithful() && (r is Ok ==> final(self).contents()
                == old(self).contents().with_mob(mob@)),
    ;

    /// Forget a mob. Removing an absent mob is a no-op.
    fn remove_mob(&mut self, id: &EntityId) -> (r: Result<(), StoreError>)
        ensures
            final(self).conduct() == old(self).conduct(),
            (old(self).conduct())(
                old(self).state(),
                Call::RemoveMob(id@),
                done_reply(r),
                final(self).state(),
            ),
            old(self).unfailing() ==> r is Ok && final(self).unfailing(),
            old(self).faithful() ==> final(self).faithful() && (r is Ok ==> final(self).contents()
                == old(self).contents().without_mob(id@)),
    ;

    /// All mobs, by increasing id.
    fn load_mobs(&self) -> (r: Result<Vec<Mob>, StoreError>)
        ensures
            (self.conduct())(self.state(), Call::LoadMobs, mobs_reply(r), self.state()),
            self.unfailing() ==> r is Ok,
            self.faithful() ==> self.contents().consistent() && (r matches Ok(mobs) ==> text::views(
                mobs@,
            ) == sorted_map::values_in_order::<EntityId, MobView>(self.contents().mobs)),
    ;

    /// Persist the global rules, in place of those there were.
    fn save_rules(&mut self, rules: &[Rule]) -> (r: Result<(), StoreError>)
        ensures
            final(self).conduct() == old(self).conduct(),
            (old(self).conduct())(
                old(self).state(),
                Call::SaveRules(text::views(rules@)),
                done_reply(r),
                final(self).state(),
            ),
            old(self).unfailing() ==> r is Ok && final(self).unfailing(),
            old(self).faithful() ==> final(self).faithful() && (r is Ok ==> final(self).contents()
                == old(self).contents().with_rules(text::views(rules@))),
    ;

    /// The global rules.
    fn load_rules(&self) -> (r: Result<Vec<Rule>, StoreError>)
        ensures
            (self.conduct())(self.state(), Call::LoadRules, rules_reply(r), self.state()),
            self.unfailing() ==> r is Ok,
            self.faithful() ==> (r matches Ok(rules) ==> text::views(rules@)
                == self.contents().rules),
    ;

    /// Persist the operators, in place of those there were.
    fn save_operators(&mut self, operators: &[Operator]) -> (r: Result<(), StoreError>)
        ensures
            final(self).conduct() == old(self).conduct(),
            (old(self).conduct())(
                old(self).state(),
                Call::SaveOperators(text::views(operators@)),
                done_reply(r),
                final(self).state(),
            ),
            old(self).unfailing() ==> r is Ok && final(self).unfailing(),
            old(self).faithful() ==> final(self).faithful() && (r is Ok ==> final(self).contents()
                == old(self).contents().with_operators(text::views(operators@))),
    ;

    /// The operators.
    fn load_operators(&self) -> (r: Result<Vec<Operator>, StoreError>)
        ensures
            (self.conduct())(self.state(), Call::LoadOperators, operators_reply(r), self.state()),
            self.unfailing() ==> r is Ok,
            self.faithful() ==> (r matches Ok(operators) ==> text::views(operators@)
                == self.contents().operators),
    ;

    /// Persist a whole realm: every room, every mob, the rules and the
    /// operators. Stored mobs that are no longer in the realm are removed.
    fn save_realm(&mut self, realm: &Realm) -> (r: Result<(), StoreError>)
        ensures
            final(self).conduct() == old(self).conduct(),
            saving(old(self).conduct(), old(self).state(), realm@, final(self).state(), failure(r)),
            old(self).unfailing() ==> r is Ok && final(self).unfailing(),
            old(self).faithful() ==> final(self).faithful() && (r is Ok ==> final(self).contents()
                == old(self).contents().saved(realm@)),
    {
        let ghost faithful = self.faithful();
        let ghost unfailing = self.unfailing();
        let ghost start = self.contents();
        let ghost conduct = self.conduct();
        let ghost mut plan: Seq<Step> = seq![];
        let ghost mut states: Seq<int> = seq![self.state()];
        let rooms = realm.world.rooms.values();
        let ghost all = text::views(rooms@);
        assert(plan =~= room_steps(realm@).take(0));
        for i in 0..rooms.len()
            invariant
                all == text::views(rooms@),
                all == sorted_map::values_in_order::<EntityId, RoomView>(realm@.world),
                conduct == old(self).conduct(),
                self.conduct() == conduct,
                plan == room_steps(realm@).take(i as int),
                carried_out(conduct, plan, states, None),
                states.first() == old(self).state(),
                states.last() == self.state(),
                unfailing ==> self.unfailing(),
                unfailing == old(self).unfailing(),
                faithful == old(self).faithful(),
                faithful ==> self.faithful() && self.contents() == (Stored {
                    rooms: put_all(start.rooms, all.take(i as int), room_id()),
                    ..start
                }),
        {
            let ghost step: Step = (Call::SaveRoom(all[i as int]), Reply::Done);
            assert(plan.push(step) =~= room_steps(realm@).take(i + 1));
            match self.save_room(&rooms[i]) {
                Ok(()) => {},
                Err(e) => {
                    proof {
                        let whole = save_plan(realm@, seq![]);
                        assert(plan.push(step) =~= whole.take(i + 1));
                        lemma_stops(conduct, plan, states, step, self.state(), e, whole);
                        assert(carried_out(conduct, whole, states.push(self.state()), Some(e)));
                    }
                    return Err(e);
                },
            }
            proof {
                lemma_goes_on(conduct, plan, states, step, self.state());
                plan = plan.push(step);
                states = states.push(self.state());
                assert(all.take(i + 1) =~= all.take(i as int).push(all[i as int]));
                lemma_put_all_push(start.rooms, all.take(i as int), all[i as int], room_id());
            }
        }
        assert(all.take(rooms@.len() as int) =~= all);
        let ghost with_rooms = Stored { rooms: put_all(start.rooms, all, room_id()), ..start };
        assert(plan =~= room_steps(realm@));
        let kept = match self.load_mobs() {
            Ok(mobs) => mobs,
            Err(e) => {
                proof {
                    let whole = save_plan(realm@, seq![]);
                    let step: Step = (Call::LoadMobs, Reply::Mobs(seq![]));
                    assert(plan.push(step) =~= whole.take(plan.len() as int + 1));
                    lemma_stops(conduct, plan, states, step, self.state(), e, whole);
                    assert(carried_out(conduct, whole, states.push(self.state()), Some(e)));
                }
                return Err(e);
            },
        };
        let ghost known = text::views(kept@);
        let ghost whole = save_plan(realm@, known);
        let ghost opening = room_steps(realm@).push((Call::LoadMobs, Reply::Mobs(known)));
        proof {
            lemma_goes_on(conduct, plan, states, (Call::LoadMobs, Reply::Mobs(known)), self.state());
            plan = opening;
            states = states.push(self.state());
            seqs::lemma_filter_empty(known.take(0), stale(realm@));
            assert(plan =~= opening + removal_steps(realm@, known.take(0)));
        }
        let ghost gone = |n: int, k: text::Text|
            exists|j: int| 0 <= j < n && #[trigger] known[j].id == k && !realm@.mobs.contains_key(k);
        proof {
            let here = Set::new(|k: text::Text| !gone(0, k));
            assert(start.mobs =~= start.mobs.restrict(here));
        }
        for i in 0..kept.len()
            invariant
                known == text::views(kept@),
                conduct == old(self).conduct(),
                self.conduct() == conduct,
                whole == save_plan(realm@, known),
                opening == room_steps(realm@).push((Call::LoadMobs, Reply::Mobs(known))),
                plan == opening + removal_steps(realm@, known.take(i as int)),
                carried_out(conduct, plan, states, None),
                states.first() == old(self).state(),
                states.last() == self.state(),
                gone == (|n: int, k: text::Text|
                    exists|j: int|
                        0 <= j < n && #[trigger] known[j].id == k && !realm@.mobs.contains_key(k)),
                unfailing ==> self.unfailing(),
                unfailing == old(self).unfailing(),
                faithful == old(self).faithful(),
                faithful ==> self.faithful() && self.contents() == (Stored {
                    mobs: start.mobs.restrict(Set::new(|k: text::Text| !gone(i as int, k))),
                    ..with_rooms
                }),
        {
            let ghost before = Set::new(|k: text::Text| !gone(i as int, k));
            let ghost now = Set::new(|k: text::Text| !gone(i + 1, k));
            let ghost x = known[i as int].id;
            proof {
                assert forall|k: text::Text| gone(i + 1, k) <==> gone(i as int, k) || k == x
                    && !realm@.mobs.contains_key(k) by {
                    if k == x && !realm@.mobs.contains_key(k) {
                        assert(known[i as int].id == k);
                    }
                }
            }
            let ghost step: Step = (Call::RemoveMob(x), Reply::Done);
            let ghost further = opening + removal_steps(realm@, known.take(i + 1));
            proof {
                let p = stale(realm@);
                let mob = known[i as int];
                assert(known.take(i + 1) =~= known.take(i as int).push(mob));
                seqs::lemma_filter_push(known.take(i as int), p, mob);
                if p(mob) {
                    assert(removal_steps(realm@, known.take(i + 1)) =~= removal_steps(
                        realm@,
                        known.take(i as int),
                    ).push(step));
                    assert(further =~= plan.push(step));
                }
                seqs::lemma_filter_prefix(known, p, i + 1);
                let some = removal_steps(realm@, known.take(i + 1));
                assert(some =~= removal_steps(realm@, known).take(some.len() as int));
                assert(further =~= whole.take(further.len() as int));
            }
            if !realm.mobs.contains_key(&kept[i].id) {
                match self.remove_mob(&kept[i].id) {
                    Ok(()) => {},
                    Err(e) => {
                        proof {
                            lemma_stops(conduct, plan, states, step, self.state(), e, whole);
                            assert(carried_out(conduct, whole, states.push(self.state()), Some(e)));
                        }
                        return Err(e);
                    },
                }
                proof {
                    lemma_goes_on(conduct, plan, states, step, self.state());
                    plan = further;
                    states = states.push(self.state());
                }
                assert(start.mobs.restrict(now) =~= start.mobs.restrict(before).remove(x));
            } else {
                assert(start.mobs.restrict(now) =~= start.mobs.restrict(before));
            }
        }
        let ghost left = start.mobs.restrict(realm@.mobs.dom());
        proof {
            if faithful {
                let n = kept@.len() as int;
                let here = Set::new(|k: text::Text| !gone(n, k));
                sorted_map::lemma_finite_map_is_listed::<EntityId, MobView>(start.mobs);
                let keys = sorted_map::in_order::<EntityId, MobView>(start.mobs);
                assert(known == sorted_map::values_in_order::<EntityId, MobView>(start.mobs));
                assert(known.len() == keys.len());
                assert(known.len() == n);
                assert forall|k: text::Text| start.mobs.contains_key(k) implies (here.contains(k)
                    <==> realm@.mobs.contains_key(k)) by {
                    assert(keys.contains(k));
                    let j = choose|j: int| 0 <= j < keys.len() && keys[j] == k;
                    assert(known[j] == start.mobs[k]);
                    assert(known[j].id == k);
                    if !realm@.mobs.contains_key(k) {
                        assert(gone(n, k));
                    } else {
                        assert(!gone(n, k));
                    }
                    assert(here.contains(k) == !gone(n, k));
                }
                assert(start.mobs.restrict(here) =~= left);
            }
        }
        let mobs = realm.mobs.values();
        let ghost crowd = text::views(mobs@);
        let ghost middle = opening + removal_steps(realm@, known);
        assert(known.take(kept@.len() as int) =~= known);
        assert(plan =~= middle + mob_steps(realm@).take(0));
        for i in 0..mobs.len()
            invariant
                crowd == text::views(mobs@),
                crowd == sorted_map::values_in_order::<EntityId, MobView>(realm@.mobs),
                conduct == old(self).conduct(),
                self.conduct() == conduct,
                whole == save_plan(realm@, known),
                opening == room_steps(realm@).push((Call::LoadMobs, Reply::Mobs(known))),
                middle == opening + removal_steps(realm@, known),
                plan == middle + mob_steps(realm@).take(i as int),
                carried_out(conduct, plan, states, None),
                states.first() == old(self).state(),
                states.last() == self.state(),
                unfailing ==> self.unfailing(),
                unfailing == old(self).unfailing(),
                faithful == old(self).faithful(),
                faithful ==> self.faithful() && self.contents() == (Stored {
                    mobs: put_all(left, crowd.take(i as int), mob_id()),
                    ..with_rooms
                }),
        {
            let ghost step: Step = (Call::SaveMob(crowd[i as int]), Reply::Done);
            proof {
                assert(plan.push(step) =~= middle + mob_steps(realm@).take(i + 1));
                assert(plan.push(step) =~= whole.take(plan.len() as int + 1));
            }
            match self.save_mob(&mobs[i]) {
                Ok(()) => {},
                Err(e) => {
                    proof {
                        lemma_stops(conduct, plan, states, step, self.state(), e, whole);
                        assert(carried_out(conduct, whole, states.push(self.state()), Some(e)));
                    }
                    return Err(e);
                },
            }
            proof {
                lemma_goes_on(conduct, plan, states, step, self.state());
                plan = plan.push(step);
                states = states.push(self.state());
                assert(crowd.take(i + 1) =~= crowd.take(i as int).push(crowd[i as int]));
                lemma_put_all_push(left, crowd.take(i as int), crowd[i as int], mob_id());
            }
        }
        assert(crowd.take(mobs@.len() as int) =~= crowd);
        let ghost rules: Step = (Call::SaveRules(realm@.rules), Reply::Done);
        let ghost operators: Step = (Call::SaveOperators(realm@.operators), Reply::Done);
        proof {
            assert(mob_steps(realm@).take(mobs@.len() as int) =~= mob_steps(realm@));
            assert(plan.push(rules) =~= whole.take(plan.len() as int + 1));
            assert(plan.push(rules).push(operators) =~= whole);
        }
        match self.save_rules(realm.rules.as_slice()) {
            Ok(()) => {},
            Err(e) => {
                proof {
                    lemma_stops(conduct, plan, states, rules, self.state(), e, whole);
                    assert(carried_out(conduct, whole, states.push(self.state()), Some(e)));
                }
                return Err(e);
            },
        }
        proof {
            lemma_goes_on(conduct, plan, states, rules, self.state());
            plan = plan.push(rules);
            states = states.push(self.state());
        }
        match self.save_operators(realm.operators.as_slice()) {
            Ok(()) => {},
            Err(e) => {
                proof {
                    lemma_stops(conduct, plan, states, operators, self.state(), e, whole);
                    assert(carried_out(conduct, whole, states.push(self.state()), Some(e)));
                }
                return Err(e);
            },
        }
        proof {
            lemma_goes_on(conduct, plan, states, operators, self.state());
            assert(carried_out(conduct, whole, states.push(self.state()), None));
        }
        Ok(())
    }

    /// Load a whole realm: rooms, mobs, rules and operators.
    fn load_realm(&self) -> (r: Result<Realm, StoreError>)
        ensures
            loading(self.conduct(), self.state(), realm_result(r)),
            self.unfailing() ==> r is Ok,
            self.faithful() ==> self.contents().consistent() && (r matches Ok(realm) ==> realm@
                == self.contents().realm()),
    {
        let ghost conduct = self.conduct();
        let ghost at = self.state();
        let world = match self.load_all() {
            Ok(world) => world,
            Err(e) => {
                proof {
                    lemma_load_stops(conduct, at, Map::empty(), seq![], seq![], seq![], 0, e);
                }
                return Err(e);
            },
        };
        let ghost rooms = world@;
        let mut realm = Realm::new(world);
        let mobs = match self.load_mobs() {
            Ok(mobs) => mobs,
            Err(e) => {
                proof {
                    lemma_load_stops(conduct, at, rooms, seq![], seq![], seq![], 1, e);
                }
                return Err(e);
            },
        };
        let ghost fresh = realm@;
        let ghost crowd = text::views(mobs@);
        for i in 0..mobs.len()
            invariant
                crowd == text::views(mobs@),
                realm@ == (RealmView {
                    mobs: put_all(fresh.mobs, crowd.take(i as int), mob_id()),
                    ..fresh
                }),
        {
            realm.insert_mob(mobs[i].clone());
            proof {
                assert(crowd.take(i + 1) =~= crowd.take(i as int).push(crowd[i as int]));
                lemma_put_all_push(fresh.mobs, crowd.take(i as int), crowd[i as int], mob_id());
            }
        }
        proof {
            assert(crowd.take(mobs@.len() as int) =~= crowd);
            if self.faithful() {
                lemma_put_all_of_map(fresh.mobs, self.contents().mobs, mob_id());
                assert(fresh.mobs.union_prefer_right(self.contents().mobs)
                    =~= self.contents().mobs);
            }
        }
        realm.rules = match self.load_rules() {
            Ok(rules) => rules,
            Err(e) => {
                proof {
                    lemma_load_stops(conduct, at, rooms, crowd, seq![], seq![], 2, e);
                }
                return Err(e);
            },
        };
        realm.operators = match self.load_operators() {
            Ok(operators) => operators,
            Err(e) => {
                proof {
                    lemma_load_stops(conduct, at, rooms, crowd, realm@.rules, seq![], 3, e);
                }
                return Err(e);
            },
        };
        proof {
            let plan = load_plan(rooms, crowd, realm@.rules, realm@.operators);
            assert(carried_out(conduct, plan, staying(at, 5), None));
            assert(realm@ == realm_of(rooms, crowd, realm@.rules, realm@.operators));
        }
        Ok(realm)
    }
}

// ---------------------------------------------------------------------------
// Laws
// ---------------------------------------------------------------------------

/// Whether a realm is finite and keeps everything at its own id.
pub open spec fn orderly(realm: RealmView) -> bool {
    &&& realm.consistent()
    &&& realm.world.dom().finite()
    &&& realm.mobs.dom().finite()
}

/// Saving a realm leaves exactly its mobs, its rules and its operators, and lays
/// its rooms over those that were there.
pub proof fn lemma_saved_holds_the_realm(stored: Stored, realm: RealmView)
    requires
        orderly(realm),
    ensures
        stored.saved(realm).rooms == stored.rooms.union_prefer_right(realm.world),
        stored.saved(realm).mobs == realm.mobs,
        stored.saved(realm).rules == realm.rules,
        stored.saved(realm).operators == realm.operators,
{
    lemma_put_all_of_map(stored.rooms, realm.world, room_id());
    let left = stored.mobs.restrict(realm.mobs.dom());
    lemma_put_all_of_map(left, realm.mobs, mob_id());
    assert(left.union_prefer_right(realm.mobs) =~= realm.mobs);
}

/// What is loaded after a realm was saved and committed is that realm: its
/// mobs, rules and operators exactly, and every room of it as it is. Rooms that
/// only the store had are there too.
pub proof fn lemma_load_gives_back_what_was_saved(
    stored: Stored,
    realm: RealmView,
    message: text::Text,
    time: i64,
)
    requires
        orderly(realm),
    ensures
        ({
            let back = stored.saved(realm).committed(message, time).realm();
            &&& back.mobs == realm.mobs
            &&& back.rules == realm.rules
            &&& back.operators == realm.operators
            &&& realm.world.submap_of(back.world)
            &&& stored.rooms.dom().subset_of(realm.world.dom()) ==> back.world == realm.world
        }),
{
    lemma_saved_holds_the_realm(stored, realm);
    let back = stored.saved(realm).committed(message, time).realm();
    assert(back.world == stored.rooms.union_prefer_right(realm.world));
    if stored.rooms.dom().subset_of(realm.world.dom()) {
        assert(back.world =~= realm.world);
    }
}

/// Saving the same realm again changes nothing.
pub proof fn lemma_saving_again_changes_nothing(stored: Stored, realm: RealmView)
    requires
        orderly(realm),
    ensures
        stored.saved(realm).saved(realm) == stored.saved(realm),
{
    lemma_saved_holds_the_realm(stored, realm);
    lemma_saved_holds_the_realm(stored.saved(realm), realm);
    assert(stored.saved(realm).saved(realm) =~= stored.saved(realm));
}

/// Saving keeps a consistent store consistent.
pub proof fn lemma_saving_keeps_consistency(stored: Stored, realm: RealmView)
    requires
        orderly(realm),
        stored.consistent(),
    ensures
        stored.saved(realm).consistent(),
{
    lemma_saved_holds_the_realm(stored, realm);
    let rooms = stored.rooms.union_prefer_right(realm.world);
    assert(rooms.dom() =~= stored.rooms.dom().union(realm.world.dom()));
    assert forall|k: text::Text| #[trigger] rooms.contains_key(k) implies rooms[k].id == k by {
        if realm.world.contains_key(k) {
        } else {
            assert(stored.rooms.contains_key(k));
        }
    }
}

/// What a store that was told something holds. A room or a mob is there, as it was
/// given, in place of what was at its id; a mob that was removed is not there; the rules
/// and the operators are those last given. Nothing else changes.
pub proof fn lemma_what_is_told_is_held(
    stored: Stored,
    room: RoomView,
    mob: MobView,
    rules: Seq<HandlerView>,
    operators: Seq<OperatorView>,
    k: text::Text,
)
    ensures
        ({
            let r = stored.with_room(room);
            let m = stored.with_mob(mob);
            let gone = stored.without_mob(mob.id);
            &&& r.rooms.contains_key(room.id) && r.rooms[room.id] == room
            &&& k != room.id ==> r.rooms.contains_key(k) == stored.rooms.contains_key(k)
            &&& k != room.id && stored.rooms.contains_key(k) ==> r.rooms[k] == stored.rooms[k]
            &&& r == Stored { rooms: r.rooms, ..stored }
            &&& m.mobs.contains_key(mob.id) && m.mobs[mob.id] == mob
            &&& k != mob.id ==> m.mobs.contains_key(k) == stored.mobs.contains_key(k)
            &&& k != mob.id && stored.mobs.contains_key(k) ==> m.mobs[k] == stored.mobs[k]
            &&& m == Stored { mobs: m.mobs, ..stored }
            &&& gone.mobs.contains_key(k) <==> stored.mobs.contains_key(k) && k != mob.id
            &&& gone.mobs.contains_key(k) ==> gone.mobs[k] == stored.mobs[k]
            &&& gone == Stored { mobs: gone.mobs, ..stored }
            &&& stored.with_rules(rules) == Stored { rules, ..stored }
            &&& stored.with_operators(operators) == Stored { operators, ..stored }
        }),
{
}

/// A commit records its message, its time and all that is held, behind the commits there
/// were, and changes nothing of what is held.
pub proof fn lemma_commits_record_what_is_held(stored: Stored, message: text::Text, time: i64)
    ensures
        ({
            let after = stored.committed(message, time);
            let commit = after.log.last();
            &&& after.log.len() == stored.log.len() + 1
            &&& after.log.drop_last() == stored.log
            &&& commit.message == message
            &&& commit.time == time
            &&& commit.held.rooms == stored.rooms
            &&& commit.held.mobs == stored.mobs
            &&& commit.held.rules == stored.rules
            &&& commit.held.operators == stored.operators
            &&& after == Stored { log: after.log, ..stored }
            &&& after.messages() == stored.messages().push(message)
        }),
{
    let after = stored.committed(message, time);
    assert(after.log.drop_last() =~= stored.log);
    assert(after.messages() =~= stored.messages().push(message));
}

proof fn lemma_listed_values<W>(m: Map<text::Text, W>, w: W)
    requires
        m.dom().finite(),
    ensures
        sorted_map::values_in_order::<EntityId, W>(m).contains(w) <==> exists|k: text::Text|
            #[trigger] m.contains_key(k) && m[k] == w,
{
    sorted_map::lemma_finite_map_is_listed::<EntityId, W>(m);
    let keys = sorted_map::in_order::<EntityId, W>(m);
    let all = sorted_map::values_in_order::<EntityId, W>(m);
    if all.contains(w) {
        let i = choose|i: int| 0 <= i < all.len() && all[i] == w;
        assert(keys.contains(keys[i]));
        assert(m.contains_key(keys[i]));
    }
    if exists|k: text::Text| #[trigger] m.contains_key(k) && m[k] == w {
        let k = choose|k: text::Text| #[trigger] m.contains_key(k) && m[k] == w;
        assert(keys.contains(k));
        let i = choose|i: int| 0 <= i < keys.len() && keys[i] == k;
        assert(all[i] == w);
    }
}

/// Saving a realm asks a store to put every room and every mob of it, to remove those of
/// the mobs that it knows that are not in the realm, and to put the realm's rules and
/// operators. It asks for no other change, and for no commit; that comes last, and once.
pub proof fn lemma_what_saving_asks(
    realm: RealmView,
    known: Seq<MobView>,
    call: Call,
    message: text::Text,
    time: i64,
    id: text::Text,
)
    requires
        realm.world.dom().finite(),
        realm.mobs.dom().finite(),
    ensures
        ({
            let plan = save_plan(realm, known);
            let keep = keep_plan(realm, known, message, time, id);
            let asked = exists|i: int| 0 <= i < plan.len() && (#[trigger] plan[i]).0 == call;
            &&& asked <==> match call {
                Call::SaveRoom(room) => exists|k: text::Text| #[trigger]
                    realm.world.contains_key(k) && realm.world[k] == room,
                Call::SaveMob(mob) => exists|k: text::Text| #[trigger]
                    realm.mobs.contains_key(k) && realm.mobs[k] == mob,
                Call::RemoveMob(gone) => exists|i: int|
                    0 <= i < known.len() && (#[trigger] known[i]).id == gone
                        && !realm.mobs.contains_key(gone),
                Call::SaveRules(rules) => rules == realm.rules,
                Call::SaveOperators(operators) => operators == realm.operators,
                Call::LoadMobs => true,
                _ => false,
            }
            &&& keep.drop_last() == plan
            &&& keep.last().0 == (Call::Commit { message, time })
        }),
{
    let plan = save_plan(realm, known);
    let rooms = sorted_map::values_in_order::<EntityId, RoomView>(realm.world);
    let mobs = sorted_map::values_in_order::<EntityId, MobView>(realm.mobs);
    let gone = known.filter(stale(realm));
    let (a, b, c) = (
        rooms.len() as int,
        rooms.len() as int + 1 + gone.len(),
        rooms.len() as int + 1 + gone.len() + mobs.len(),
    );
    assert(plan.len() == c + 2);
    assert forall|i: int| 0 <= i < plan.len() implies (#[trigger] plan[i]).0 == if i < a {
        Call::SaveRoom(rooms[i])
    } else if i == a {
        Call::LoadMobs
    } else if i < b {
        Call::RemoveMob(gone[i - a - 1].id)
    } else if i < c {
        Call::SaveMob(mobs[i - b])
    } else if i == c {
        Call::SaveRules(realm.rules)
    } else {
        Call::SaveOperators(realm.operators)
    } by {}
    assert(plan[a].0 == Call::LoadMobs);
    assert(plan[c].0 == Call::SaveRules(realm.rules));
    assert(plan[c + 1].0 == Call::SaveOperators(realm.operators));
    match call {
        Call::SaveRoom(room) => {
            lemma_listed_values(realm.world, room);
            if rooms.contains(room) {
                let i = choose|i: int| 0 <= i < rooms.len() && rooms[i] == room;
                assert(plan[i].0 == call);
            }
            if exists|i: int| 0 <= i < plan.len() && (#[trigger] plan[i]).0 == call {
                let i = choose|i: int| 0 <= i < plan.len() && (#[trigger] plan[i]).0 == call;
                assert(rooms[i] == room);
            }
        },
        Call::SaveMob(mob) => {
            lemma_listed_values(realm.mobs, mob);
            if mobs.contains(mob) {
                let i = choose|i: int| 0 <= i < mobs.len() && mobs[i] == mob;
                assert(plan[b + i].0 == call);
            }
            if exists|i: int| 0 <= i < plan.len() && (#[trigger] plan[i]).0 == call {
                let i = choose|i: int| 0 <= i < plan.len() && (#[trigger] plan[i]).0 == call;
                assert(mobs[i - b] == mob);
            }
        },
        Call::RemoveMob(k) => {
            if exists|i: int| 0 <= i < plan.len() && (#[trigger] plan[i]).0 == call {
                let i = choose|i: int| 0 <= i < plan.len() && (#[trigger] plan[i]).0 == call;
                let x = gone[i - a - 1];
                assert(gone.contains(x));
                seqs::lemma_filter_contains(known, stale(realm), x);
                let j = choose|j: int| 0 <= j < known.len() && known[j] == x;
                assert(known[j].id == k);
            }
            if exists|i: int|
                0 <= i < known.len() && (#[trigger] known[i]).id == k && !realm.mobs.contains_key(
                    k,
                ) {
                let i = choose|i: int|
                    0 <= i < known.len() && (#[trigger] known[i]).id == k
                        && !realm.mobs.contains_key(k);
                assert(known.contains(known[i]));
                seqs::lemma_filter_contains(known, stale(realm), known[i]);
                let j = choose|j: int| 0 <= j < gone.len() && gone[j] == known[i];
                assert(plan[a + 1 + j].0 == call);
            }
        },
        _ => {},
    }
    let keep = keep_plan(realm, known, message, time, id);
    assert(keep.drop_last() =~= plan);
}

/// A realm that was loaded has the rooms, the rules and the operators that were given,
/// each given mob at its own id, the last one where several have it, and says the usual
/// things.
pub proof fn lemma_what_is_loaded(
    rooms: Map<text::Text, RoomView>,
    mobs: Seq<MobView>,
    rules: Seq<HandlerView>,
    operators: Seq<OperatorView>,
    k: text::Text,
)
    ensures
        ({
            let realm = realm_of(rooms, mobs, rules, operators);
            &&& realm.world == rooms
            &&& realm.rules == rules
            &&& realm.operators == operators
            &&& realm.no_exit_message == "You see no exit in that direction."@
            &&& realm.rate_limit_message == "You can't do that yet."@
            &&& realm.mobs.contains_key(k) <==> exists|i: int|
                0 <= i < mobs.len() && (#[trigger] mobs[i]).id == k
            &&& realm.mobs.contains_key(k) ==> exists|i: int|
                #![trigger mobs[i]]
                0 <= i < mobs.len() && mobs[i].id == k && realm.mobs[k] == mobs[i] && forall|j: int|
                    i < j < mobs.len() ==> (#[trigger] mobs[j]).id != k
        }),
    decreases mobs.len(),
{
    if mobs.len() > 0 {
        let front = mobs.drop_last();
        lemma_what_is_loaded(rooms, front, rules, operators, k);
        let before = realm_of(rooms, front, rules, operators);
        let last = mobs.len() - 1;
        assert(forall|i: int| 0 <= i < front.len() ==> front[i] == #[trigger] mobs[i]);
        if mobs[last].id != k && before.mobs.contains_key(k) {
            let i = choose|i: int|
                #![trigger front[i]]
                0 <= i < front.len() && front[i].id == k && before.mobs[k] == front[i]
                    && forall|j: int| i < j < front.len() ==> (#[trigger] front[j]).id != k;
            assert(mobs[i] == front[i]);
            assert forall|j: int| i < j < mobs.len() implies (#[trigger] mobs[j]).id != k by {
                if j < last {
                    assert(front[j] == mobs[j]);
                }
            }
        } else if mobs[last].id == k {
            assert(mobs[last].id == k);
        }
        if exists|i: int| 0 <= i < mobs.len() && (#[trigger] mobs[i]).id == k {
            let i = choose|i: int| 0 <= i < mobs.len() && (#[trigger] mobs[i]).id == k;
            if i < last {
                assert(front[i].id == k);
            }
        }
    }
}

} // verus!
