//! Several inserts at once.
//!
//! Inserts that run at the same time take their steps in any order. Here a
//! fleet of inserts is taken together with the one lock table and the stores
//! of all collections, and it is shown what holds after any number of steps
//! in any order, where the caller grants an acquisition only as the lock
//! table does: on one collection one insert at a time is past its
//! acquisition, and only that insert changes the collection's stores, so
//! that the stores are what the inserts leave when they run one after the
//! other; inserts into different collections go as if each were alone, and
//! none waits for another; and no id is returned twice.
use crate::config::IndexConfig;
use crate::exclusion::held_after_writing;
use crate::insert::{
    lemma_step_preserves, ChunkView, InsertActionView, InsertBatchView, InsertEvent,
    InsertProgressView,
};
use crate::isolation::{lemma_kept_apart, Kept};
use crate::locks::{exclusive, holders_of, may_write, nobody, Held, Holders};
use crate::stores::{all_assigned, Stores};
use vstd::prelude::*;

verus! {

/// A step of one insert of a fleet: the insert at position `who` is answered
/// by `event`.
pub struct Move {
    pub who: int,
    pub event: InsertEvent,
}

/// A fleet of inserts, with what they share.
pub struct Fleet {
    /// What is held on each collection.
    pub held: Held,
    /// The stores of all collections.
    pub kept: Kept,
    /// The collection of each insert.
    pub collections: Seq<Seq<char>>,
    /// Where each insert stands.
    pub inserts: Seq<InsertProgressView>,
}

/// What a writer alone holds.
pub open spec fn writer() -> Holders {
    Holders { readers: 0, writer: true }
}

/// The stores once an insert that stands at `progress` is answered by
/// `events`, one after the other.
pub open spec fn stores_after(
    progress: InsertProgressView,
    stores: Stores,
    events: Seq<InsertEvent>,
) -> Stores {
    match progress {
        InsertProgressView::Next { machine, .. } => stores.after_inserting(machine, events),
        InsertProgressView::Finished { .. } => stores,
    }
}

/// Where an insert that stands at `progress` stands once it is answered by
/// `events`, one after the other.
pub open spec fn progress_after(
    progress: InsertProgressView,
    events: Seq<InsertEvent>,
) -> InsertProgressView {
    match progress {
        InsertProgressView::Next { machine, .. } => machine.run(events),
        InsertProgressView::Finished { .. } => progress,
    }
}

/// The events of `moves` that answer the insert at position `who`, in
/// order.
pub open spec fn events_of(moves: Seq<Move>, who: int) -> Seq<InsertEvent>
    decreases moves.len(),
{
    if moves.len() == 0 {
        Seq::empty()
    } else if moves[0].who == who {
        seq![moves[0].event] + events_of(moves.drop_first(), who)
    } else {
        events_of(moves.drop_first(), who)
    }
}

impl Fleet {
    /// Whether the insert at position `who` is running.
    pub open spec fn runs(self, who: int) -> bool {
        0 <= who < self.inserts.len() && self.inserts[who] is Next
    }

    /// The state of the insert at position `who`, which is running.
    pub open spec fn state(self, who: int) -> InsertBatchView {
        self.inserts[who]->machine
    }

    /// Whether the insert at position `who` holds its collection.
    pub open spec fn holds(self, who: int) -> bool {
        self.runs(who) && self.state(who).holds_collection()
    }

    /// The fleet after a step: the insert that is answered moves on, what it
    /// acquires or releases is held or let go, and the stores of its
    /// collection become what its operation leaves. A step of an insert
    /// that is over changes nothing.
    pub open spec fn moved(self, step: Move) -> Fleet {
        if self.runs(step.who) {
            let s = self.state(step.who);
            Fleet {
                held: held_after_writing(
                    self.held,
                    s.collection,
                    s.pending() is Acquire,
                    s.pending() is Release,
                    step.event is Done,
                ),
                kept: self.kept.with(
                    s.collection,
                    self.kept.of(s.collection).after_insert(s.pending(), step.event),
                ),
                collections: self.collections,
                inserts: self.inserts.update(step.who, s.step(step.event)),
            }
        } else {
            self
        }
    }

    /// Whether `step` is one that a caller may take: an acquisition is
    /// answered as granted only where the lock table grants it.
    pub open spec fn admits(self, step: Move) -> bool {
        self.runs(step.who) && self.state(step.who).pending() is Acquire && step.event is Done
            ==> may_write(holders_of(self.held, self.state(step.who).collection))
    }

    /// Whether `step` is answered by a table that assigns fresh ids: the id
    /// that it assigns to a row is one under which the table of the
    /// collection holds no row yet.
    pub open spec fn assigns_fresh(self, step: Move) -> bool {
        self.runs(step.who) ==> (self.state(step.who).pending() matches InsertActionView::InsertRow {
            explicit_id: None,
            ..
        } ==> (step.event matches InsertEvent::RowInserted { row_id } ==> !self.kept.of(
            self.state(step.who).collection,
        ).has_row(row_id)))
    }

    /// The fleet after `moves`, one after the other.
    pub open spec fn after(self, moves: Seq<Move>) -> Fleet
        decreases moves.len(),
    {
        if moves.len() == 0 {
            self
        } else {
            self.moved(moves[0]).after(moves.drop_first())
        }
    }

    /// Whether every one of `moves`, taken one after the other, is one that
    /// a caller may take.
    pub open spec fn admits_all(self, moves: Seq<Move>) -> bool
        decreases moves.len(),
    {
        moves.len() > 0 ==> self.admits(moves[0]) && self.moved(moves[0]).admits_all(
            moves.drop_first(),
        )
    }

    /// Whether every one of `moves`, taken one after the other, is answered
    /// by tables that assign fresh ids.
    pub open spec fn assigns_all_fresh(self, moves: Seq<Move>) -> bool
        decreases moves.len(),
    {
        moves.len() > 0 ==> self.assigns_fresh(moves[0]) && self.moved(
            moves[0],
        ).assigns_all_fresh(moves.drop_first())
    }

    /// What holds of a fleet at all times: every writer is alone in the lock
    /// table; every insert that runs is an insert into its collection, and
    /// where it holds the collection the lock table shows a writer on it;
    /// and no two inserts hold the same collection.
    pub open spec fn orderly(self) -> bool {
        &&& exclusive(self.held)
        &&& self.collections.len() == self.inserts.len()
        &&& forall|j: int| #[trigger]
            self.runs(j) ==> {
                &&& self.state(j).wf()
                &&& self.state(j).collection == self.collections[j]
                &&& self.inserts[j]->action == self.state(j).pending()
                &&& self.state(j).holds_collection() ==> holders_of(
                    self.held,
                    self.collections[j],
                ) == writer()
            }
        &&& forall|j: int, l: int|
            #[trigger] self.holds(j) && #[trigger] self.holds(l) && self.collections[j]
                == self.collections[l] ==> j == l
    }
}

/// One insert at a time: a fleet that is orderly stays orderly, whichever
/// insert takes whichever step, so that at no time two inserts are past
/// their acquisition of the same collection.
pub proof fn lemma_move_keeps_order(fleet: Fleet, step: Move)
    requires
        fleet.orderly(),
        fleet.admits(step),
    ensures
        fleet.moved(step).orderly(),
{
    let after = fleet.moved(step);
    if fleet.runs(step.who) {
        let s = fleet.state(step.who);
        let c = s.collection;
        lemma_step_preserves(s, step.event);
        assert forall|j: int| #[trigger] after.runs(j) implies {
            &&& after.state(j).wf()
            &&& after.state(j).collection == after.collections[j]
            &&& after.inserts[j]->action == after.state(j).pending()
            &&& after.state(j).holds_collection() ==> holders_of(after.held, after.collections[j])
                == writer()
        } by {
            if j != step.who {
                assert(fleet.runs(j));
                if fleet.state(j).holds_collection() && fleet.collections[j] == c {
                    assert(fleet.holds(j));
                    if fleet.holds(step.who) {
                        assert(j == step.who);
                    }
                }
            }
        }
        assert forall|j: int, l: int|
            #[trigger] after.holds(j) && #[trigger] after.holds(l) && after.collections[j]
                == after.collections[l] implies j == l by {
            if j != l {
                if j != step.who && l != step.who {
                    assert(fleet.holds(j) && fleet.holds(l));
                } else {
                    let other = if j == step.who {
                        l
                    } else {
                        j
                    };
                    assert(fleet.holds(other));
                    assert(fleet.runs(other));
                    assert(holders_of(fleet.held, c) == writer());
                    if fleet.holds(step.who) {
                        assert(other == step.who);
                    }
                }
            }
        }
    }
}

/// Only the insert that holds a collection changes it: where a step changes
/// the stores of a collection, it is a step of an insert into that
/// collection which holds the collection, and so of the one insert that
/// does.
pub proof fn lemma_only_the_holder_changes(fleet: Fleet, step: Move, collection: Seq<char>)
    requires
        fleet.orderly(),
        fleet.moved(step).kept.of(collection) != fleet.kept.of(collection),
    ensures
        fleet.holds(step.who),
        fleet.collections[step.who] == collection,
        forall|l: int| #[trigger]
            fleet.holds(l) && fleet.collections[l] == collection ==> l == step.who,
{
    assert(fleet.runs(step.who));
    let s = fleet.state(step.who);
    let stores = fleet.kept.of(s.collection).after_insert(s.pending(), step.event);
    if collection != s.collection {
        lemma_kept_apart(fleet.kept, s.collection, stores, collection);
    } else {
        lemma_kept_apart(fleet.kept, s.collection, stores, seq!['x'] + s.collection);
    }
    assert(fleet.holds(step.who));
}

/// A fleet stays orderly through any number of steps in any order.
pub proof fn lemma_moves_keep_order(fleet: Fleet, moves: Seq<Move>)
    requires
        fleet.orderly(),
        fleet.admits_all(moves),
    ensures
        fleet.after(moves).orderly(),
    decreases moves.len(),
{
    if moves.len() > 0 {
        lemma_move_keeps_order(fleet, moves[0]);
        lemma_moves_keep_order(fleet.moved(moves[0]), moves.drop_first());
    }
}

impl Fleet {
    /// Whether no two inserts of the fleet are into the same collection.
    pub open spec fn apart(self) -> bool {
        forall|j: int, l: int|
            0 <= j < self.collections.len() && 0 <= l < self.collections.len() && j != l
                ==> #[trigger] self.collections[j] != #[trigger] self.collections[l]
    }

    /// Whether no insert waits: on the collection of every insert that has
    /// not acquired it yet, nothing is held.
    pub open spec fn unhindered(self) -> bool {
        forall|j: int| #[trigger]
            self.runs(j) && !self.state(j).holds_collection() ==> holders_of(
                self.held,
                self.collections[j],
            ) == nobody()
    }
}

/// A step of one insert leaves every other insert where it stands, and the
/// stores of every other collection, and what is held on it, as they are.
pub proof fn lemma_move_leaves_others(fleet: Fleet, step: Move, j: int)
    requires
        fleet.orderly(),
        0 <= j < fleet.inserts.len(),
        j != step.who,
    ensures
        fleet.moved(step).inserts[j] == fleet.inserts[j],
        fleet.runs(step.who) && fleet.collections[j] != fleet.collections[step.who] ==> {
            &&& fleet.moved(step).kept.of(fleet.collections[j]) == fleet.kept.of(
                fleet.collections[j],
            )
            &&& holders_of(fleet.moved(step).held, fleet.collections[j]) == holders_of(
                fleet.held,
                fleet.collections[j],
            )
        },
{
    if fleet.runs(step.who) {
        let s = fleet.state(step.who);
        if fleet.collections[j] != fleet.collections[step.who] {
            lemma_kept_apart(
                fleet.kept,
                s.collection,
                fleet.kept.of(s.collection).after_insert(s.pending(), step.event),
                fleet.collections[j],
            );
        }
    }
}

/// Inserts into different collections go as if each were alone, and none
/// waits for another. After any number of steps of a fleet in any order,
/// each insert stands where its own answers alone have brought it, so that
/// it returns what it would return alone; the stores of its collection are
/// what its own operations alone have left; and every insert that has not
/// acquired its collection yet finds it free.
pub proof fn lemma_apart_as_if_alone(fleet: Fleet, moves: Seq<Move>, j: int)
    requires
        fleet.orderly(),
        fleet.apart(),
        fleet.unhindered(),
        fleet.admits_all(moves),
        0 <= j < fleet.inserts.len(),
    ensures
        ({
            let after = fleet.after(moves);
            let mine = events_of(moves, j);
            &&& after.orderly()
            &&& after.unhindered()
            &&& after.inserts[j] == progress_after(fleet.inserts[j], mine)
            &&& after.kept.of(fleet.collections[j]) == stores_after(
                fleet.inserts[j],
                fleet.kept.of(fleet.collections[j]),
                mine,
            )
            &&& after.runs(j) && after.state(j).pending() is Acquire ==> may_write(
                holders_of(after.held, fleet.collections[j]),
            )
        }),
    decreases moves.len(),
{
    if moves.len() > 0 {
        let step = moves[0];
        let next = fleet.moved(step);
        let rest = moves.drop_first();
        lemma_move_keeps_order(fleet, step);
        assert(next.apart());
        assert(next.unhindered()) by {
            assert forall|l: int| #[trigger]
                next.runs(l) && !next.state(l).holds_collection() implies holders_of(
                next.held,
                next.collections[l],
            ) == nobody() by {
                if fleet.runs(step.who) {
                    if l != step.who {
                        lemma_move_leaves_others(fleet, step, l);
                        assert(fleet.runs(l));
                    } else {
                        lemma_step_preserves(fleet.state(step.who), step.event);
                    }
                }
            }
        }
        lemma_apart_as_if_alone(next, rest, j);
        if step.who == j {
            if fleet.runs(j) {
                let s = fleet.state(j);
                let e = step.event;
                let mine = events_of(moves, j);
                assert(mine == seq![e] + events_of(rest, j));
                assert(mine[0] == e);
                assert(mine.drop_first() =~= events_of(rest, j));
                lemma_kept_apart(
                    fleet.kept,
                    s.collection,
                    fleet.kept.of(s.collection).after_insert(s.pending(), e),
                    seq!['x'] + s.collection,
                );
                if events_of(rest, j).len() == 0 {
                    if let InsertProgressView::Next { machine, action } = s.step(e) {
                        lemma_step_preserves(s, e);
                        assert(machine.run(events_of(rest, j)) == s.step(e));
                    }
                }
            }
        } else {
            lemma_move_leaves_others(fleet, step, j);
        }
    } else {
        assert(fleet.runs(j) ==> fleet.state(j).run(Seq::<InsertEvent>::empty())
            == fleet.inserts[j]);
    }
}

/// The ids that an insert which stands at `progress` has been given: those
/// of the chunks that are committed and that of the row in hand while it
/// runs, and those that it returns once it has succeeded.
pub open spec fn ids_of(progress: InsertProgressView) -> Seq<i64> {
    match progress {
        InsertProgressView::Next { machine, .. } => match machine.row_in_hand() {
            Some(row_id) => machine.committed.push(row_id),
            None => machine.committed,
        },
        InsertProgressView::Finished { outcome: Ok(ids) } => ids,
        InsertProgressView::Finished { outcome: Err(_) } => Seq::empty(),
    }
}

impl Fleet {
    /// The id at position `a` of the ids of the insert at position `j`.
    pub open spec fn id(self, j: int, a: int) -> i64 {
        ids_of(self.inserts[j])[a]
    }

    /// Whether `a` is a position among the ids of the insert at position
    /// `j`.
    pub open spec fn has_id(self, j: int, a: int) -> bool {
        0 <= j < self.inserts.len() && 0 <= a < ids_of(self.inserts[j]).len()
    }

    /// Whether the table is to assign every id, every id that was given has
    /// its row, and no id was given twice: not to one insert, and not to
    /// two inserts into the same collection.
    pub open spec fn no_id_twice(self) -> bool {
        &&& self.collections.len() == self.inserts.len()
        &&& forall|j: int| #[trigger]
            self.runs(j) ==> all_assigned(self.state(j).chunks) && self.state(j).wf()
                && self.state(j).collection == self.collections[j]
        &&& forall|j: int, a: int| #[trigger]
            self.has_id(j, a) ==> self.kept.of(self.collections[j]).has_row(self.id(j, a))
        &&& forall|j: int, a: int, l: int, b: int|
            #[trigger] self.has_id(j, a) && #[trigger] self.has_id(l, b) && self.collections[j]
                == self.collections[l] && (j != l || a != b) ==> self.id(j, a) != self.id(l, b)
    }
}

/// The ids of an insert after a step are those before it, but for the id of
/// a row that was just inserted, which is new, and for what an insert that
/// fails leaves out.
proof fn lemma_ids_after_step(s: InsertBatchView, event: InsertEvent)
    requires
        s.wf(),
        all_assigned(s.chunks),
    ensures
        ({
            let before = ids_of(s.going());
            let after = ids_of(s.step(event));
            ||| after == before
            ||| after.len() <= before.len() && after == before.take(after.len() as int)
            ||| s.pending() is InsertRow && event is RowInserted && after == before.push(
                event->row_id,
            )
        }),
{
    let before = ids_of(s.going());
    let after = ids_of(s.step(event));
    if s.answered_by(event) && !(s.phase is Releasing) {
    } else {
        assert(after.len() <= before.len() && after =~= before.take(after.len() as int));
    }
}

/// A step of an insert takes no row away, and gives the row that it
/// inserts.
proof fn lemma_rows_stay(stores: Stores, s: InsertBatchView, event: InsertEvent, id: i64)
    ensures
        stores.has_row(id) ==> stores.after_insert(s.pending(), event).has_row(id),
        s.pending() is InsertRow && event is RowInserted ==> stores.after_insert(
            s.pending(),
            event,
        ).has_row(event->row_id),
{
}

/// No id is given twice, whichever insert takes whichever step, where the
/// tables assign fresh ids.
pub proof fn lemma_move_gives_no_id_twice(fleet: Fleet, step: Move)
    requires
        fleet.no_id_twice(),
        fleet.assigns_fresh(step),
    ensures
        fleet.moved(step).no_id_twice(),
{
    let after = fleet.moved(step);
    if fleet.runs(step.who) {
        let who = step.who;
        let s = fleet.state(who);
        let c = s.collection;
        let e = step.event;
        let stores = fleet.kept.of(c).after_insert(s.pending(), e);
        let old_ids = ids_of(fleet.inserts[who]);
        let new_ids = ids_of(after.inserts[who]);
        lemma_step_preserves(s, e);
        lemma_ids_after_step(s, e);
        assert(fleet.inserts[who] is Next);
        assert(ids_of(fleet.inserts[who]) == ids_of(s.going()));
        lemma_kept_apart(fleet.kept, c, stores, seq!['x'] + c);
        assert(after.kept.of(c) == stores);
        let grown = s.pending() is InsertRow && e is RowInserted && new_ids == old_ids.push(
            e->row_id,
        );
        let fresh: i64 = if e is RowInserted {
            e->row_id
        } else {
            0
        };
        if grown {
            assert(s.chunks[s.committed.len() as int].explicit_id is None);
            assert(!fleet.kept.of(c).has_row(fresh));
        }
        // an id of the fleet after the step is an id before it, at the same place, or the new one
        assert forall|j: int, a: int| #[trigger] after.has_id(j, a) implies {
            &&& after.kept.of(after.collections[j]).has_row(after.id(j, a))
            &&& (fleet.has_id(j, a) && fleet.id(j, a) == after.id(j, a)) || (j == who && grown
                && a == old_ids.len() && after.id(j, a) == fresh)
        } by {
            if j == who {
                if grown && a == old_ids.len() {
                    lemma_rows_stay(fleet.kept.of(c), s, e, fresh);
                } else {
                    assert(fleet.has_id(j, a));
                    assert(new_ids[a] == old_ids[a]);
                    lemma_rows_stay(fleet.kept.of(c), s, e, fleet.id(j, a));
                }
            } else {
                assert(fleet.has_id(j, a));
                assert(after.inserts[j] == fleet.inserts[j]);
                if fleet.collections[j] == c {
                    lemma_rows_stay(fleet.kept.of(c), s, e, fleet.id(j, a));
                } else {
                    lemma_kept_apart(fleet.kept, c, stores, fleet.collections[j]);
                }
            }
        }
        assert forall|j: int, a: int, l: int, b: int|
            #[trigger] after.has_id(j, a) && #[trigger] after.has_id(l, b) && after.collections[j]
                == after.collections[l] && (j != l || a != b) implies after.id(j, a) != after.id(
            l,
            b,
        ) by {
            let new_j = j == who && grown && a == old_ids.len();
            let new_l = l == who && grown && b == old_ids.len();
            if new_j && new_l {
            } else if new_j {
                assert(fleet.has_id(l, b));
                assert(fleet.kept.of(fleet.collections[l]).has_row(fleet.id(l, b)));
            } else if new_l {
                assert(fleet.has_id(j, a));
                assert(fleet.kept.of(fleet.collections[j]).has_row(fleet.id(j, a)));
            } else {
                assert(fleet.has_id(j, a) && fleet.has_id(l, b));
            }
        }
        assert forall|j: int| #[trigger] after.runs(j) implies all_assigned(after.state(j).chunks)
            && after.state(j).wf() && after.state(j).collection == after.collections[j] by {
            if j != who {
                assert(fleet.runs(j));
            }
        }
    }
}

/// No id is returned twice. After any number of steps of a fleet in any
/// order, where the tables assign fresh ids, the ids that the inserts have
/// been given differ from each other: within one insert, and between any
/// two inserts into the same collection. The ids of an insert that has
/// succeeded are the ids that it returns (see [`ids_of`]).
pub proof fn lemma_no_id_twice(fleet: Fleet, moves: Seq<Move>)
    requires
        fleet.no_id_twice(),
        fleet.assigns_all_fresh(moves),
    ensures
        fleet.after(moves).no_id_twice(),
        forall|j: int, a: int, l: int, b: int|
            #[trigger] fleet.after(moves).has_id(j, a) && #[trigger] fleet.after(moves).has_id(l, b)
                && fleet.after(moves).collections[j] == fleet.after(moves).collections[l] && (j != l
                || a != b) ==> fleet.after(moves).id(j, a) != fleet.after(moves).id(l, b),
    decreases moves.len(),
{
    if moves.len() > 0 {
        lemma_move_gives_no_id_twice(fleet, moves[0]);
        lemma_no_id_twice(fleet.moved(moves[0]), moves.drop_first());
    }
}

/// A fleet at its launch: nothing is held, and every insert is at its
/// start.
pub open spec fn launched(
    kept: Kept,
    collections: Seq<Seq<char>>,
    config: IndexConfig,
    chunks: Seq<Seq<ChunkView>>,
) -> Fleet {
    Fleet {
        held: Map::empty(),
        kept,
        collections,
        inserts: Seq::new(
            collections.len(),
            |j: int| InsertBatchView::initial(collections[j], config, chunks[j]).going(),
        ),
    }
}

/// A fleet is orderly at its launch, no insert waits, and no id is given
/// yet.
pub proof fn lemma_launched(
    kept: Kept,
    collections: Seq<Seq<char>>,
    config: IndexConfig,
    chunks: Seq<Seq<ChunkView>>,
)
    requires
        chunks.len() == collections.len(),
    ensures
        launched(kept, collections, config, chunks).orderly(),
        launched(kept, collections, config, chunks).unhindered(),
        (forall|j: int| 0 <= j < chunks.len() ==> all_assigned(#[trigger] chunks[j])) ==> launched(
            kept,
            collections,
            config,
            chunks,
        ).no_id_twice(),
{
    let fleet = launched(kept, collections, config, chunks);
    assert forall|j: int, a: int| #[trigger] fleet.has_id(j, a) implies false by {
        assert(ids_of(fleet.inserts[j]).len() == 0);
    }
}

impl Fleet {
    /// Whether `h` is the position of the insert that holds `collection`.
    pub open spec fn is_holder(self, h: int, collection: Seq<char>) -> bool {
        self.holds(h) && self.collections[h] == collection
    }

    /// Whether an insert holds `collection`.
    pub open spec fn is_held(self, collection: Seq<char>) -> bool {
        exists|h: int| self.is_holder(h, collection)
    }

    /// The position of the insert that holds `collection`, where one does.
    pub open spec fn holder(self, collection: Seq<char>) -> int {
        choose|h: int| self.is_holder(h, collection)
    }

    /// Whether `step` is the acquisition of `collection`, granted.
    pub open spec fn acquires(self, step: Move, collection: Seq<char>) -> bool {
        &&& self.runs(step.who)
        &&& self.collections[step.who] == collection
        &&& self.state(step.who).pending() is Acquire
        &&& step.event is Done
    }

    /// The inserts that acquire `collection` in the course of `moves`, in
    /// the order in which they do.
    pub open spec fn acquirers(self, moves: Seq<Move>, collection: Seq<char>) -> Seq<int>
        decreases moves.len(),
    {
        if moves.len() == 0 {
            Seq::empty()
        } else {
            let rest = self.moved(moves[0]).acquirers(moves.drop_first(), collection);
            if self.acquires(moves[0], collection) {
                seq![moves[0].who] + rest
            } else {
                rest
            }
        }
    }

    /// The inserts that work on `collection` in the course of `moves`, in
    /// their turn: the one that holds it at first, where one does, and then
    /// those that acquire it, in the order in which they do.
    pub open spec fn turns(self, moves: Seq<Move>, collection: Seq<char>) -> Seq<int> {
        if self.is_held(collection) {
            seq![self.holder(collection)] + self.acquirers(moves, collection)
        } else {
            self.acquirers(moves, collection)
        }
    }

    /// The stores that the inserts at the positions `order` leave when they
    /// run one after the other, each from where it stands and each through
    /// its own answers among `moves`, on `stores`.
    pub open spec fn in_turn(self, order: Seq<int>, moves: Seq<Move>, stores: Stores) -> Stores
        decreases order.len(),
    {
        if order.len() == 0 {
            stores
        } else {
            self.in_turn(
                order.drop_first(),
                moves,
                stores_after(self.inserts[order[0]], stores, events_of(moves, order[0])),
            )
        }
    }
}

/// An insert that acquires a collection in the course of some moves is one
/// that runs, is an insert into that collection, and does not hold it yet.
proof fn lemma_acquirers_wait(fleet: Fleet, moves: Seq<Move>, collection: Seq<char>, i: int)
    requires
        fleet.orderly(),
        fleet.admits_all(moves),
        0 <= i < fleet.acquirers(moves, collection).len(),
    ensures
        fleet.runs(fleet.acquirers(moves, collection)[i]),
        fleet.collections[fleet.acquirers(moves, collection)[i]] == collection,
        !fleet.holds(fleet.acquirers(moves, collection)[i]),
    decreases moves.len(),
{
    if moves.len() > 0 {
        let step = moves[0];
        let next = fleet.moved(step);
        let rest = next.acquirers(moves.drop_first(), collection);
        lemma_move_keeps_order(fleet, step);
        if fleet.acquires(step, collection) && i == 0 {
        } else {
            let k = if fleet.acquires(step, collection) {
                i - 1
            } else {
                i
            };
            assert(fleet.acquirers(moves, collection)[i] == rest[k]);
            lemma_acquirers_wait(next, moves.drop_first(), collection, k);
            let x = rest[k];
            if fleet.runs(step.who) {
                lemma_step_preserves(fleet.state(step.who), step.event);
                if x != step.who {
                    lemma_move_leaves_others(fleet, step, x);
                }
            }
        }
    }
}

/// Inserts that stand alike and are answered alike leave the same stores.
proof fn lemma_in_turn_alike(
    fleet: Fleet,
    moves: Seq<Move>,
    other: Fleet,
    others: Seq<Move>,
    order: Seq<int>,
    stores: Stores,
)
    requires
        forall|i: int|
            0 <= i < order.len() ==> fleet.inserts[#[trigger] order[i]] == other.inserts[order[i]]
                && events_of(moves, order[i]) == events_of(others, order[i]),
    ensures
        fleet.in_turn(order, moves, stores) == other.in_turn(order, others, stores),
    decreases order.len(),
{
    if order.len() > 0 {
        assert(order[0] == order[0]);
        let after = stores_after(fleet.inserts[order[0]], stores, events_of(moves, order[0]));
        assert forall|i: int| 0 <= i < order.drop_first().len() implies fleet.inserts[#[trigger] order.drop_first()[i]]
            == other.inserts[order.drop_first()[i]] && events_of(moves, order.drop_first()[i])
            == events_of(others, order.drop_first()[i]) by {
            assert(order.drop_first()[i] == order[i + 1]);
        }
        lemma_in_turn_alike(fleet, moves, other, others, order.drop_first(), after);
    }
}

/// Inserts into one collection run one after the other. After any number of
/// steps of a fleet in any order, the stores of a collection are what the
/// inserts into it leave when each runs alone and to where it has come, in
/// their turn: the one that held the collection at first, and then those
/// that acquired it, in the order in which they did.
pub proof fn lemma_one_after_the_other(fleet: Fleet, moves: Seq<Move>, collection: Seq<char>)
    requires
        fleet.orderly(),
        fleet.admits_all(moves),
    ensures
        fleet.after(moves).kept.of(collection) == fleet.in_turn(
            fleet.turns(moves, collection),
            moves,
            fleet.kept.of(collection),
        ),
    decreases moves.len(),
{
    let c = collection;
    let base = fleet.kept.of(c);
    if moves.len() == 0 {
        if fleet.is_held(c) {
            let h = fleet.holder(c);
            let order = seq![h];
            assert(fleet.turns(moves, c) =~= order);
            assert(order.drop_first() =~= Seq::<int>::empty());
            assert(events_of(moves, h) =~= Seq::<InsertEvent>::empty());
            assert(fleet.in_turn(order, moves, base) == fleet.in_turn(
                order.drop_first(),
                moves,
                stores_after(fleet.inserts[h], base, events_of(moves, h)),
            ));
        }
    } else {
        let step = moves[0];
        let who = step.who;
        let next = fleet.moved(step);
        let rest = moves.drop_first();
        let later = next.acquirers(rest, c);
        lemma_move_keeps_order(fleet, step);
        lemma_one_after_the_other(next, rest, c);
        // those that acquire later stand in `next` as in `fleet`, and are answered alike
        assert forall|i: int| 0 <= i < later.len() implies fleet.inserts[#[trigger] later[i]]
            == next.inserts[later[i]] && events_of(moves, later[i]) == events_of(rest, later[i]) by {
            lemma_acquirers_wait(next, rest, c, i);
            let x = later[i];
            if fleet.runs(who) {
                lemma_step_preserves(fleet.state(who), step.event);
                if x != who {
                    lemma_move_leaves_others(fleet, step, x);
                }
            }
        }
        let takes_part = fleet.runs(who) && fleet.collections[who] == c && (fleet.holds(who)
            || step.event is Done);
        if !takes_part {
            // a step that does nothing to the collection: of an insert into another, of one
            // that is over, or of one that waits and is not let in
            if fleet.runs(who) {
                let s = fleet.state(who);
                lemma_step_preserves(s, step.event);
                lemma_kept_apart(
                    fleet.kept,
                    s.collection,
                    fleet.kept.of(s.collection).after_insert(s.pending(), step.event),
                    if s.collection == c {
                        seq!['x'] + c
                    } else {
                        c
                    },
                );
            }
            assert(next.kept.of(c) == base);
            assert(fleet.acquirers(moves, c) == later);
            assert forall|h: int| fleet.is_holder(h, c) <==> next.is_holder(h, c) by {
                if h != who && 0 <= h < fleet.inserts.len() {
                    if fleet.runs(who) {
                        lemma_move_leaves_others(fleet, step, h);
                    }
                }
            }
            if fleet.is_held(c) {
                let h = fleet.holder(c);
                assert(next.is_holder(h, c));
                let g = next.holder(c);
                assert(fleet.is_holder(g, c));
                assert(fleet.holds(h) && fleet.holds(g));
                assert(g == h);
                assert(h != who);
                if fleet.runs(who) {
                    lemma_move_leaves_others(fleet, step, h);
                }
                assert(events_of(moves, h) == events_of(rest, h));
                let order = seq![h] + later;
                assert(order.drop_first() =~= later);
                assert(order[0] == h);
                let held = stores_after(fleet.inserts[h], base, events_of(moves, h));
                lemma_in_turn_alike(fleet, moves, next, rest, later, held);
            } else {
                assert(!next.is_held(c)) by {
                    if next.is_held(c) {
                        assert(fleet.is_holder(next.holder(c), c));
                    }
                }
                lemma_in_turn_alike(fleet, moves, next, rest, later, base);
            }
        } else {
            let s = fleet.state(who);
            let e = step.event;
            let after = base.after_insert(s.pending(), e);
            lemma_step_preserves(s, e);
            lemma_kept_apart(fleet.kept, c, after, seq!['x'] + c);
            assert(next.kept.of(c) == after);
            let mine = events_of(moves, who);
            assert(mine == seq![e] + events_of(rest, who));
            assert(mine[0] == e);
            assert(mine.drop_first() =~= events_of(rest, who));
            assert(stores_after(fleet.inserts[who], base, mine) == stores_after(
                next.inserts[who],
                after,
                events_of(rest, who),
            ));
            // who works on the collection once this step is taken
            let works = next.runs(who);
            assert(works ==> next.is_holder(who, c));
            assert forall|h: int| next.is_holder(h, c) implies h == who by {
                if h != who {
                    lemma_move_leaves_others(fleet, step, h);
                    assert(fleet.holds(h));
                    if fleet.holds(who) {
                        assert(h == who);
                    } else {
                        assert(holders_of(fleet.held, c) == writer());
                    }
                }
            }
            if works {
                assert(next.holds(who) && next.holds(next.holder(c)));
                assert(next.holder(c) == who);
            } else {
                assert(!next.is_held(c)) by {
                    if next.is_held(c) {
                        assert(next.is_holder(next.holder(c), c));
                    }
                }
            }
            let mine_after = stores_after(fleet.inserts[who], base, mine);
            if fleet.holds(who) {
                // the holder takes a step
                assert(fleet.is_holder(who, c));
                let h = fleet.holder(c);
                assert(fleet.holds(h) && fleet.holds(who));
                assert(h == who);
                assert(fleet.acquirers(moves, c) == later);
                let order = seq![who] + later;
                assert(order.drop_first() =~= later);
                assert(order[0] == who);
                lemma_in_turn_alike(fleet, moves, next, rest, later, mine_after);
                if works {
                    let order_next = seq![who] + later;
                    assert(next.turns(rest, c) == order_next);
                } else {
                    assert(next.turns(rest, c) == later);
                    assert(stores_after(next.inserts[who], after, events_of(rest, who)) == after);
                }
            } else {
                // an insert that waits is answered
                assert(s.pending() is Acquire);
                assert(after == base);
                if e is Done {
                    assert(may_write(holders_of(fleet.held, c)));
                    assert(!fleet.is_held(c)) by {
                        if fleet.is_held(c) {
                            let h = fleet.holder(c);
                            assert(fleet.is_holder(h, c));
                            assert(fleet.runs(h));
                            assert(holders_of(fleet.held, c) == writer());
                        }
                    }
                    assert(fleet.acquires(step, c));
                    let order = seq![who] + later;
                    assert(fleet.turns(moves, c) == order);
                    assert(order.drop_first() =~= later);
                    assert(order[0] == who);
                    assert(works);
                    assert(next.turns(rest, c) == order);
                    lemma_in_turn_alike(fleet, moves, next, rest, later, mine_after);
                }
            }
        }
    }
}

} // verus!
