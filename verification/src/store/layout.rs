//! How a store on disk is laid out: one RON file per entity, and which of the
//! files it finds hold what.

use vstd::prelude::*;

use crate::id::{self, EntityId};
use crate::mob::{Mob, MobView};
use crate::seqs;
use crate::text;

verus! {

// ---------------------------------------------------------------------------
// Paths
// ---------------------------------------------------------------------------

/// The file of an entity, below the root: by the directory it is kept under, its
/// zone, the directory for its sort, and its name.
pub open spec fn entity_path(top: text::Text, sort: text::Text, entity: text::Text) -> text::Text {
    top + "/"@ + id::zone_of(entity) + "/"@ + sort + "/"@ + id::name_of(entity) + ".ron"@
}

/// The file of a room, below the root.
pub open spec fn room_path(room: text::Text) -> text::Text {
    entity_path("world"@, "rooms"@, room)
}

/// The file of a mob, below the root.
pub open spec fn mob_path(mob: text::Text) -> text::Text {
    entity_path("state"@, "mobs"@, mob)
}

/// Whether the file at this path is a RON file: its name has the extension, and
/// more than the extension.
pub open spec fn is_ron(path: text::Text) -> bool {
    &&& path.len() > 4
    &&& path.skip(path.len() - 4) == ".ron"@
    &&& path[path.len() - 5] != '/'
}

/// Whether the file at this path below the root holds a room: it is a RON file
/// below `world`, directly in a directory called `rooms`, or at any depth in
/// `world/<zone>/rooms`, where the rooms with deeper ids are. Other authored data
/// is kept beside the rooms, but not in their directories.
pub open spec fn holds_room(path: text::Text) -> bool {
    in_rooms_directory(path) || in_zone(path)
}

/// Whether the file at this path is a RON file somewhere below `world`, directly
/// in a directory called `rooms`.
pub open spec fn in_rooms_directory(path: text::Text) -> bool {
    &&& path.len() >= 6 && path.take(6) == "world/"@
    &&& exists|above: text::Text, name: text::Text|
        #[trigger] directly_in_rooms(above, name) == path && above.len() >= 5 && !name.contains('/')
            && is_ron(name)
}

/// The path of what is called `name` in the directory `rooms` of `above`.
pub open spec fn directly_in_rooms(above: text::Text, name: text::Text) -> text::Text {
    above + "/rooms/"@ + name
}

/// Whether the file at this path is a RON file at any depth among the rooms of a
/// zone.
pub open spec fn in_zone(path: text::Text) -> bool {
    exists|zone: text::Text, rest: text::Text|
        #[trigger] among_rooms(zone, rest) == path && zone.len() > 0 && !zone.contains('/')
            && is_ron(rest)
}

/// The path below the root of what has the path `rest` among the rooms of `zone`.
pub open spec fn among_rooms(zone: text::Text, rest: text::Text) -> text::Text {
    "world/"@ + zone + "/rooms/"@ + rest
}

fn entity_file(top: &str, sort: &str, entity: &EntityId) -> (r: String)
    ensures
        r@ == entity_path(top@, sort@, entity@),
{
    let under_zone = text::join_three(top, "/", entity.zone());
    let under_sort = text::join_three(under_zone.as_str(), "/", sort);
    let named = text::join_three(under_sort.as_str(), "/", entity.name());
    text::join_two(named.as_str(), ".ron")
}

/// The file of a room, below the root: `world/<zone>/rooms/<name>.ron`.
pub fn room_file(room: &EntityId) -> (r: String)
    ensures
        r@ == room_path(room@),
{
    entity_file("world", "rooms", room)
}

/// The file of a mob, below the root: `state/<zone>/mobs/<name>.ron`.
pub fn mob_file(mob: &EntityId) -> (r: String)
    ensures
        r@ == mob_path(mob@),
{
    entity_file("state", "mobs", mob)
}

/// The file of the rules, below the root.
pub fn rules_file() -> (r: &'static str)
    ensures
        r@ == "world/rules.ron"@,
{
    "world/rules.ron"
}

/// The file of the operators, below the root: parallel to that of the rules.
pub fn operators_file() -> (r: &'static str)
    ensures
        r@ == "world/operators.ron"@,
{
    "world/operators.ron"
}

/// Whether `s` stands in `chars` at position `at`.
fn stands_at(chars: &Vec<char>, at: usize, s: &str) -> (r: bool)
    requires
        at <= chars@.len(),
    ensures
        r == (at + s@.len() <= chars@.len() && chars@.subrange(at as int, at + s@.len()) == s@),
{
    let want = text::chars_of(s);
    let n = chars.len();
    if n - at < want.len() {
        return false;
    }
    for i in 0..want.len()
        invariant
            want@ == s@,
            n == chars@.len(),
            at + want@.len() <= n,
            forall|j: int| 0 <= j < i ==> chars@[at + j] == #[trigger] want@[j],
    {
        if chars[at + i] != want[i] {
            assert(chars@.subrange(at as int, at + s@.len())[i as int] != s@[i as int]);
            return false;
        }
    }
    assert(chars@.subrange(at as int, at + s@.len()) =~= s@);
    true
}

/// Whether what stands in `chars` from position `from` on is the path of a RON
/// file.
fn ron_from(chars: &Vec<char>, from: usize) -> (r: bool)
    requires
        from <= chars@.len(),
    ensures
        r == is_ron(chars@.skip(from as int)),
{
    proof {
        reveal_strlit(".ron");
    }
    let n = chars.len();
    if n - from <= 4 {
        return false;
    }
    let ghost path = chars@.skip(from as int);
    assert(path.skip(path.len() - 4) =~= chars@.subrange(n - 4, n as int));
    assert(path[path.len() - 5] == chars@[n - 5]);
    stands_at(chars, n - 4, ".ron") && chars[n - 5] != '/'
}

/// Whether the file at this path is a RON file.
pub fn is_ron_file(path: &str) -> (r: bool)
    ensures
        r == is_ron(path@),
{
    let chars = text::chars_of(path);
    assert(chars@.skip(0) =~= path@);
    ron_from(&chars, 0)
}

/// Where the zone ends, and the path among its rooms begins, is determined by the
/// path: the zone reaches from behind the first slash to the second.
proof fn lemma_zone_is_determined(zone: text::Text, rest: text::Text, end: int)
    requires
        !zone.contains('/'),
        6 <= end <= among_rooms(zone, rest).len(),
        forall|j: int| 6 <= j < end ==> #[trigger] among_rooms(zone, rest)[j] != '/',
        end < among_rooms(zone, rest).len() ==> among_rooms(zone, rest)[end] == '/',
    ensures
        end == 6 + zone.len(),
        among_rooms(zone, rest).subrange(0, 6) == "world/"@,
        among_rooms(zone, rest).subrange(end, end + 7) == "/rooms/"@,
        among_rooms(zone, rest).skip(end + 7) == rest,
{
    reveal_strlit("world/");
    reveal_strlit("/rooms/");
    let path = among_rooms(zone, rest);
    assert(path[6 + zone.len() as int] == "/rooms/"@[0]);
    if end < 6 + zone.len() {
        assert(path[end] == zone[end - 6]);
        assert(zone.contains(zone[end - 6]));
    }
    assert(path.subrange(0, 6) =~= "world/"@);
    assert(path.subrange(end, end + 7) =~= "/rooms/"@);
    assert(path.skip(end + 7) =~= rest);
}

/// Where the name begins is determined by the path: behind the last slash.
proof fn lemma_name_is_determined(above: text::Text, name: text::Text, last: int)
    requires
        !name.contains('/'),
        0 <= last < directly_in_rooms(above, name).len(),
        directly_in_rooms(above, name)[last] == '/',
        forall|j: int|
            last < j < directly_in_rooms(above, name).len() ==> #[trigger] directly_in_rooms(
                above,
                name,
            )[j] != '/',
    ensures
        last == above.len() + 6,
        directly_in_rooms(above, name).subrange(last - 6, last + 1) == "/rooms/"@,
        directly_in_rooms(above, name).skip(last + 1) == name,
{
    reveal_strlit("/rooms/");
    let path = directly_in_rooms(above, name);
    assert(path[above.len() as int + 6] == "/rooms/"@[6]);
    if last > above.len() + 6 {
        assert(path[last] == name[last - above.len() - 7]);
        assert(name.contains(name[last - above.len() - 7]));
    }
    assert(path.subrange(last - 6, last + 1) =~= "/rooms/"@);
    assert(path.skip(last + 1) =~= name);
}

/// Whether a path that begins with `world/` is that of a RON file directly in a
/// directory called `rooms`.
fn lies_in_rooms_directory(chars: &Vec<char>) -> (r: bool)
    requires
        chars@.len() >= 6,
        chars@.take(6) == "world/"@,
    ensures
        r == in_rooms_directory(chars@),
{
    proof {
        reveal_strlit("world/");
        reveal_strlit("/rooms/");
    }
    let n = chars.len();
    let mut last: usize = n - 1;
    assert(chars@[5] == chars@.take(6)[5]);
    while chars[last] != '/'
        invariant
            n == chars@.len(),
            5 <= last < n,
            chars@[5] == '/',
            forall|j: int| last < j < n ==> #[trigger] chars@[j] != '/',
        decreases last,
    {
        last = last - 1;
    }
    let r = last >= 11 && stands_at(chars, last - 6, "/rooms/") && ron_from(chars, last + 1);
    proof {
        let path = chars@;
        if r {
            let above = path.take(last - 6);
            let name = path.skip(last + 1);
            if name.contains('/') {
                let i = choose|i: int| 0 <= i < name.len() && name[i] == '/';
                assert(path[last + 1 + i] == '/');
            }
            assert(path =~= above + path.subrange(last - 6, last + 1) + name);
            assert(directly_in_rooms(above, name) == path);
        } else if in_rooms_directory(path) {
            let (above, name) = choose|above: text::Text, name: text::Text|
                #[trigger] directly_in_rooms(above, name) == path && above.len() >= 5
                    && !name.contains('/') && is_ron(name);
            lemma_name_is_determined(above, name, last as int);
        }
    }
    r
}

/// Whether a path that begins with `world/` is that of a RON file among the rooms
/// of a zone.
fn lies_in_zone(chars: &Vec<char>) -> (r: bool)
    requires
        chars@.len() >= 6,
        chars@.take(6) == "world/"@,
    ensures
        r == in_zone(chars@),
{
    proof {
        reveal_strlit("world/");
        reveal_strlit("/rooms/");
    }
    let n = chars.len();
    let mut end: usize = 6;
    while end < n && chars[end] != '/'
        invariant
            n == chars@.len(),
            6 <= end <= n,
            forall|j: int| 6 <= j < end ==> #[trigger] chars@[j] != '/',
        decreases n - end,
    {
        end = end + 1;
    }
    let r = end > 6 && stands_at(chars, end, "/rooms/") && ron_from(chars, end + 7);
    proof {
        let path = chars@;
        if r {
            let zone = path.subrange(6, end as int);
            let rest = path.skip(end + 7);
            if zone.contains('/') {
                let i = choose|i: int| 0 <= i < zone.len() && zone[i] == '/';
                assert(path[6 + i] == '/');
            }
            assert(path =~= path.take(6) + zone + path.subrange(end as int, end + 7) + rest);
            assert(among_rooms(zone, rest) == path);
        } else if in_zone(path) {
            let (zone, rest) = choose|zone: text::Text, rest: text::Text|
                #[trigger] among_rooms(zone, rest) == path && zone.len() > 0 && !zone.contains('/')
                    && is_ron(rest);
            lemma_zone_is_determined(zone, rest, end as int);
        }
    }
    r
}

/// Whether the file at this path below the root holds a room. The parts of the
/// path are separated by slashes.
pub fn is_room_file(path: &str) -> (r: bool)
    ensures
        r == holds_room(path@),
{
    proof {
        reveal_strlit("world/");
    }
    let chars = text::chars_of(path);
    if !stands_at(&chars, 0, "world/") {
        proof {
            assert forall|zone: text::Text, rest: text::Text| #[trigger]
                among_rooms(zone, rest) == path@ implies false by {
                assert(among_rooms(zone, rest).subrange(0, 6) =~= "world/"@);
            }
            assert(path@.len() >= 6 ==> path@.take(6) =~= path@.subrange(0, 6));
        }
        return false;
    }
    assert(chars@.take(6) =~= chars@.subrange(0, 6));
    lies_in_rooms_directory(&chars) || lies_in_zone(&chars)
}

// ---------------------------------------------------------------------------
// Order
// ---------------------------------------------------------------------------

/// `mobs` with `mob` put before the first that comes after it.
pub open spec fn put_by_id(mobs: Seq<MobView>, mob: MobView) -> Seq<MobView>
    decreases mobs.len(),
{
    if mobs.len() == 0 || !text::precedes(mob.id, mobs.last().id) {
        mobs.push(mob)
    } else {
        put_by_id(mobs.drop_last(), mob).push(mobs.last())
    }
}

/// The mobs by increasing id; those with the same id stay in their order.
pub open spec fn by_id(mobs: Seq<MobView>) -> Seq<MobView>
    decreases mobs.len(),
{
    if mobs.len() == 0 {
        seq![]
    } else {
        put_by_id(by_id(mobs.drop_last()), mobs.last())
    }
}

/// The mobs by increasing id (deterministic order).
pub fn sort_mobs(mobs: Vec<Mob>) -> (r: Vec<Mob>)
    ensures
        text::views(r@) == by_id(text::views(mobs@)),
{
    let ghost all = text::views(mobs@);
    let mut out: Vec<Mob> = Vec::new();
    assert(text::views(out@) =~= by_id(all.take(0)));
    for i in 0..mobs.len()
        invariant
            all == text::views(mobs@),
            text::views(out@) == by_id(all.take(i as int)),
    {
        let mob = mobs[i].clone();
        let ghost before = text::views(out@);
        let mut p: usize = out.len();
        proof {
            assert(all.take(i + 1).drop_last() =~= all.take(i as int));
            assert(all.take(i + 1).last() == mob@);
            assert(before.take(p as int) =~= before);
            assert(before.skip(p as int) =~= seq![]);
            assert(put_by_id(before, mob@) =~= put_by_id(before.take(p as int), mob@) + seq![]);
        }
        while p > 0 && text::comes_before(mob.id.as_str(), out[p - 1].id.as_str())
            invariant
                p <= out@.len(),
                before == text::views(out@),
                put_by_id(before, mob@) == put_by_id(before.take(p as int), mob@) + before.skip(
                    p as int,
                ),
            decreases p,
        {
            proof {
                let front = before.take(p as int);
                assert(front.last() == before[p - 1]);
                assert(front.drop_last() =~= before.take(p - 1));
                assert(before.skip(p - 1) =~= seq![before[p - 1]] + before.skip(p as int));
                assert(put_by_id(front, mob@) =~= put_by_id(before.take(p - 1), mob@).push(
                    before[p - 1],
                ));
                assert(put_by_id(front, mob@) + before.skip(p as int) =~= put_by_id(
                    before.take(p - 1),
                    mob@,
                ) + before.skip(p - 1));
            }
            p = p - 1;
        }
        proof {
            let front = before.take(p as int);
            if p > 0 {
                assert(front.last() == before[p - 1]);
            }
            assert(put_by_id(front, mob@) == front.push(mob@));
            assert(before.insert(p as int, mob@) =~= front.push(mob@) + before.skip(p as int));
        }
        out.insert(p, mob);
        assert(text::views(out@) =~= before.insert(p as int, mob@));
    }
    assert(all.take(mobs@.len() as int) =~= all);
    out
}

// ---------------------------------------------------------------------------
// Laws
// ---------------------------------------------------------------------------

/// Whether no mob comes before one that stands in front of it.
pub open spec fn ordered(mobs: Seq<MobView>) -> bool {
    forall|i: int, j: int|
        #![trigger mobs[i], mobs[j]]
        0 <= i < j < mobs.len() ==> !text::precedes(mobs[j].id, mobs[i].id)
}

proof fn lemma_put_keeps_order(mobs: Seq<MobView>, mob: MobView)
    requires
        ordered(mobs),
    ensures
        ordered(put_by_id(mobs, mob)),
        put_by_id(mobs, mob).to_multiset() == mobs.to_multiset().insert(mob),
    decreases mobs.len(),
{
    broadcast use vstd::seq_lib::group_to_multiset_ensures;

    let after = put_by_id(mobs, mob);
    if mobs.len() == 0 || !text::precedes(mob.id, mobs.last().id) {
        assert forall|i: int, j: int|
            #![trigger after[i], after[j]]
            0 <= i < j < after.len() implies !text::precedes(after[j].id, after[i].id) by {
            if j == mobs.len() && i < mobs.len() - 1 {
                let last = mobs[mobs.len() - 1];
                if text::precedes(mob.id, mobs[i].id) {
                    text::lemma_precedes_total(mobs[i].id, last.id);
                    assert(!text::precedes(last.id, mobs[i].id));
                    if mobs[i].id != last.id {
                        text::lemma_precedes_transitive(mob.id, mobs[i].id, last.id);
                    }
                }
            }
        }
    } else {
        let front = mobs.drop_last();
        let last = mobs.last();
        lemma_put_keeps_order(front, mob);
        let placed = put_by_id(front, mob);
        assert forall|i: int, j: int|
            #![trigger after[i], after[j]]
            0 <= i < j < after.len() implies !text::precedes(after[j].id, after[i].id) by {
            if j == placed.len() {
                assert(placed.to_multiset().count(placed[i]) > 0) by {
                    assert(placed.contains(placed[i]));
                }
                if placed[i] != mob {
                    assert(front.to_multiset().count(placed[i]) > 0);
                    assert(front.contains(placed[i]));
                    let k = choose|k: int| 0 <= k < front.len() && front[k] == placed[i];
                    assert(!text::precedes(mobs[mobs.len() - 1].id, mobs[k].id));
                } else if text::precedes(last.id, mob.id) {
                    text::lemma_precedes_transitive(last.id, mob.id, last.id);
                    text::lemma_precedes_irreflexive(last.id);
                }
            }
        }
        assert(mobs =~= front.push(last));
        assert(after.to_multiset() =~= mobs.to_multiset().insert(mob));
    }
}

/// Sorting gives the same mobs, in order.
pub proof fn lemma_sorted_mobs_are_ordered(mobs: Seq<MobView>)
    ensures
        ordered(by_id(mobs)),
        by_id(mobs).to_multiset() == mobs.to_multiset(),
    decreases mobs.len(),
{
    broadcast use vstd::seq_lib::group_to_multiset_ensures;

    if mobs.len() == 0 {
        assert(mobs =~= seq![]);
    } else {
        lemma_sorted_mobs_are_ordered(mobs.drop_last());
        lemma_put_keeps_order(by_id(mobs.drop_last()), mobs.last());
        assert(mobs =~= mobs.drop_last().push(mobs.last()));
    }
}

proof fn lemma_head_is_determined(a: text::Text, x: text::Text, b: text::Text, y: text::Text)
    requires
        !a.contains('/'),
        !b.contains('/'),
        a + seq!['/'] + x == b + seq!['/'] + y,
    ensures
        a == b,
        x == y,
{
    let t = a + seq!['/'] + x;
    let u = b + seq!['/'] + y;
    assert(t[a.len() as int] == '/');
    assert(u[b.len() as int] == '/');
    if a.len() < b.len() {
        assert(b[a.len() as int] == u[a.len() as int]);
    } else if b.len() < a.len() {
        assert(a[b.len() as int] == t[b.len() as int]);
    }
    assert(a =~= t.take(a.len() as int));
    assert(b =~= u.take(b.len() as int));
    assert(x =~= t.skip(a.len() as int + 1));
    assert(y =~= u.skip(b.len() as int + 1));
}

/// One file per entity: under one directory and for one sort, no two entities
/// are given the same path.
pub proof fn lemma_one_file_per_entity(
    top: text::Text,
    sort: text::Text,
    a: text::Text,
    b: text::Text,
)
    requires
        id::valid_id(a),
        id::valid_id(b),
        entity_path(top, sort, a) == entity_path(top, sort, b),
    ensures
        a == b,
{
    reveal_strlit("/");
    id::lemma_id_is_zone_and_name(a);
    id::lemma_id_is_zone_and_name(b);
    let pre = top + "/"@;
    let rest_a = sort + "/"@ + id::name_of(a) + ".ron"@;
    let rest_b = sort + "/"@ + id::name_of(b) + ".ron"@;
    let tail_a = id::zone_of(a) + seq!['/'] + rest_a;
    let tail_b = id::zone_of(b) + seq!['/'] + rest_b;
    assert(entity_path(top, sort, a) =~= pre + tail_a);
    assert(entity_path(top, sort, b) =~= pre + tail_b);
    assert((pre + tail_a).skip(pre.len() as int) =~= tail_a);
    assert((pre + tail_b).skip(pre.len() as int) =~= tail_b);
    lemma_head_is_determined(id::zone_of(a), rest_a, id::zone_of(b), rest_b);
    let k = (sort + "/"@).len() as int;
    let n = ".ron"@.len();
    assert(id::name_of(a) =~= rest_a.subrange(k, rest_a.len() - n));
    assert(id::name_of(b) =~= rest_b.subrange(k, rest_b.len() - n));
    id::lemma_zone_and_name_determine_id(a, b);
}

/// Every saved room is found again, however deep its id: its file is one that
/// holds a room.
pub proof fn lemma_saved_room_is_found(room: text::Text)
    requires
        id::valid_id(room),
    ensures
        holds_room(room_path(room)),
{
    reveal_strlit(".ron");
    reveal_strlit("/");
    reveal_strlit("world");
    reveal_strlit("rooms");
    reveal_strlit("world/");
    reveal_strlit("/rooms/");
    id::lemma_id_is_zone_and_name(room);
    let zone = id::zone_of(room);
    let name = id::name_of(room);
    let rest = name + ".ron"@;
    assert(rest.skip(rest.len() - 4) =~= ".ron"@);
    assert(rest[rest.len() - 5] == name[name.len() - 1]);
    assert(room.last() == name.last());
    assert("world"@ + "/"@ =~= "world/"@);
    assert("/"@ + "rooms"@ + "/"@ =~= "/rooms/"@);
    assert(room_path(room) =~= among_rooms(zone, rest));
}

/// Every RON file that lies directly in a directory called `rooms`, wherever below
/// `world` that is, is taken for a room.
pub proof fn lemma_rooms_directories_hold_rooms(above: text::Text, name: text::Text)
    requires
        above == "world"@ || above.len() >= 6 && above.take(6) == "world/"@,
        !name.contains('/'),
        is_ron(name),
    ensures
        holds_room(directly_in_rooms(above, name)),
{
    reveal_strlit("world");
    reveal_strlit("world/");
    reveal_strlit("/rooms/");
    let path = directly_in_rooms(above, name);
    if above == "world"@ {
        assert(path.take(6) =~= "world/"@);
    } else {
        assert(path.take(6) =~= above.take(6));
    }
}

/// What lies directly in `world`, beside the zones, is not taken for a room. The
/// rules and the operators lie there.
pub proof fn lemma_other_authored_data_is_no_room(file_name: text::Text)
    requires
        !file_name.contains('/'),
    ensures
        !holds_room("world/"@ + file_name),
        !holds_room("world/rules.ron"@),
        !holds_room("world/operators.ron"@),
{
    reveal_strlit("world/");
    reveal_strlit("world/rules.ron");
    reveal_strlit("world/operators.ron");
    lemma_needs_a_zone("world/"@ + file_name);
    lemma_needs_a_zone("world/rules.ron"@);
    lemma_needs_a_zone("world/operators.ron"@);
}

proof fn lemma_needs_a_zone(path: text::Text)
    requires
        forall|i: int| 6 <= i < path.len() ==> #[trigger] path[i] != '/',
    ensures
        !holds_room(path),
{
    reveal_strlit("world/");
    reveal_strlit("/rooms/");
    assert forall|zone: text::Text, rest: text::Text| #[trigger]
        among_rooms(zone, rest) == path implies false by {
        assert(among_rooms(zone, rest)[6 + zone.len() as int] == "/rooms/"@[0]);
    }
    assert forall|above: text::Text, name: text::Text| #[trigger]
        directly_in_rooms(above, name) == path && above.len() >= 5 implies false by {
        assert(directly_in_rooms(above, name)[above.len() as int + 6] == "/rooms/"@[6]);
    }
}

/// The files of mobs are not taken for rooms.
pub proof fn lemma_mob_file_is_no_room(mob: text::Text)
    ensures
        !holds_room(mob_path(mob)),
{
    reveal_strlit("world/");
    reveal_strlit("state");
    let path = mob_path(mob);
    assert(path[0] == "state"@[0]);
    assert forall|zone: text::Text, rest: text::Text| #[trigger]
        among_rooms(zone, rest) == path implies false by {
        assert(among_rooms(zone, rest)[0] == "world/"@[0]);
    }
    if path.len() >= 6 {
        assert(path.take(6)[0] == path[0]);
    }
}

/// Where things are kept: a room at `world/<zone>/rooms/<name>.ron` and a mob at
/// `state/<zone>/mobs/<name>.ron`, whatever directories the name holds.
pub proof fn lemma_where_things_are_kept(zone: text::Text, name: text::Text)
    requires
        zone.len() > 0,
        name.len() > 0,
        !zone.contains('/'),
        name.last() != '/',
        forall|i: int| 0 <= i < zone.len() ==> id::alphabet().contains(#[trigger] zone[i]),
        forall|i: int| 0 <= i < name.len() ==> id::alphabet().contains(#[trigger] name[i]),
    ensures
        room_path(zone + seq!['/'] + name) == "world/"@ + zone + "/rooms/"@ + name + ".ron"@,
        mob_path(zone + seq!['/'] + name) == "state/"@ + zone + "/mobs/"@ + name + ".ron"@,
{
    reveal_strlit("/");
    reveal_strlit("world");
    reveal_strlit("rooms");
    reveal_strlit("world/");
    reveal_strlit("/rooms/");
    reveal_strlit("state");
    reveal_strlit("mobs");
    reveal_strlit("state/");
    reveal_strlit("/mobs/");
    id::lemma_zone_and_name_make_an_id(zone, name);
    assert("world"@ + "/"@ =~= "world/"@);
    assert("state"@ + "/"@ =~= "state/"@);
    let entity = zone + seq!['/'] + name;
    assert(room_path(entity) =~= "world/"@ + zone + "/rooms/"@ + name + ".ron"@);
    assert(mob_path(entity) =~= "state/"@ + zone + "/mobs/"@ + name + ".ron"@);
}

/// A RON file is one whose name is something and the extension.
pub proof fn lemma_ron_files(stem: text::Text, path: text::Text)
    ensures
        is_ron(stem + ".ron"@) <==> stem.len() > 0 && stem.last() != '/',
        is_ron(path) ==> path.len() > 4 && path == path.take(path.len() - 4) + ".ron"@,
{
    reveal_strlit(".ron");
    let whole = stem + ".ron"@;
    assert(whole.skip(whole.len() - 4) =~= ".ron"@);
    if stem.len() > 0 {
        assert(whole[whole.len() - 5] == stem.last());
    }
    if is_ron(path) {
        assert(path =~= path.take(path.len() - 4) + path.skip(path.len() - 4));
    }
}

/// What is taken for a room is a RON file below `world`, somewhere below a directory
/// called `rooms`.
pub proof fn lemma_rooms_are_ron_files_below_rooms(path: text::Text)
    requires
        holds_room(path),
    ensures
        is_ron(path),
        path.len() > 6,
        path.take(6) == "world/"@,
        exists|i: int|
            5 <= i && i + 7 <= path.len() && #[trigger] path.subrange(i, i + 7) == "/rooms/"@,
{
    reveal_strlit("world/");
    reveal_strlit("/rooms/");
    reveal_strlit(".ron");
    if in_rooms_directory(path) {
        let (above, name) = choose|above: text::Text, name: text::Text|
            #[trigger] directly_in_rooms(above, name) == path && above.len() >= 5 && !name.contains(
                '/',
            ) && is_ron(name);
        let i = above.len() as int;
        assert(path.subrange(i, i + 7) =~= "/rooms/"@);
        assert(path.skip(path.len() - 4) =~= name.skip(name.len() - 4));
        assert(path[path.len() - 5] == name[name.len() - 5]);
    } else {
        let (zone, rest) = choose|zone: text::Text, rest: text::Text|
            #[trigger] among_rooms(zone, rest) == path && zone.len() > 0 && !zone.contains('/')
                && is_ron(rest);
        let i = 6 + zone.len() as int;
        assert(path.subrange(i, i + 7) =~= "/rooms/"@);
        assert(path.skip(path.len() - 4) =~= rest.skip(rest.len() - 4));
        assert(path[path.len() - 5] == rest[rest.len() - 5]);
        assert(path.take(6) =~= "world/"@);
    }
}

proof fn lemma_put_behind_its_equals(mobs: Seq<MobView>, mob: MobView, k: text::Text)
    ensures
        ({
            let p = |m: MobView| m.id == k;
            put_by_id(mobs, mob).filter(p) == if mob.id == k {
                mobs.filter(p).push(mob)
            } else {
                mobs.filter(p)
            }
        }),
    decreases mobs.len(),
{
    let p = |m: MobView| m.id == k;
    if mobs.len() == 0 || !text::precedes(mob.id, mobs.last().id) {
        seqs::lemma_filter_push(mobs, p, mob);
    } else {
        let front = mobs.drop_last();
        let last = mobs.last();
        lemma_put_behind_its_equals(front, mob, k);
        assert(mobs =~= front.push(last));
        seqs::lemma_filter_push(front, p, last);
        seqs::lemma_filter_push(put_by_id(front, mob), p, last);
        text::lemma_precedes_irreflexive(mob.id);
    }
}

/// Sorting is stable: mobs with the same id stay in the order in which they came.
pub proof fn lemma_sorting_mobs_is_stable(mobs: Seq<MobView>, k: text::Text)
    ensures
        by_id(mobs).filter(|m: MobView| m.id == k) == mobs.filter(|m: MobView| m.id == k),
    decreases mobs.len(),
{
    let p = |m: MobView| m.id == k;
    if mobs.len() > 0 {
        let front = mobs.drop_last();
        lemma_sorting_mobs_is_stable(front, k);
        lemma_put_behind_its_equals(by_id(front), mobs.last(), k);
        assert(mobs =~= front.push(mobs.last()));
        seqs::lemma_filter_push(front, p, mobs.last());
    } else {
        assert(mobs =~= by_id(mobs));
    }
}

/// The rules and the operators are kept directly in `world`.
pub proof fn lemma_where_rules_are_kept(rules: &'static str, operators: &'static str)
    requires
        call_ensures(rules_file, (), rules),
        call_ensures(operators_file, (), operators),
    ensures
        rules@ == "world/rules.ron"@,
        operators@ == "world/operators.ron"@,
{
}

} // verus!
