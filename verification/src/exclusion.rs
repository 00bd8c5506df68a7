//! The coordinators and the lock table together.
//!
//! A coordinator asks for its collection first and lets go of it last. Here
//! it is shown what follows where the caller answers the acquisition as
//! [`crate::locks::LockTable`] decides, and releases as it is asked to: an
//! insert and a drop work alone on their collection, a search keeps writers
//! out, and no collection waits for another.
use crate::insert::{InsertBatchView, InsertEvent, InsertProgressView};
use crate::locks::{
    after_release_read, after_release_write, after_try_read, after_try_write, exclusive,
    holders_of, may_read, may_write, nobody, Held, Holders,
};
use crate::removal::{DropCollectionView, DropEvent, DropProgressView};
use crate::search::{SearchBatchView, SearchEventView, SearchProgressView};
use vstd::prelude::*;

verus! {

/// What is held once an operation of an insert, or of a drop, on
/// `collection` is answered: the acquisition, once it is granted, puts a
/// writer on the collection, and the release takes it off.
pub open spec fn held_after_writing(
    held: Held,
    collection: Seq<char>,
    acquiring: bool,
    releasing: bool,
    granted: bool,
) -> Held {
    if acquiring && granted {
        after_try_write(held, collection)
    } else if releasing {
        after_release_write(held, collection)
    } else {
        held
    }
}

/// An insert works alone: from the moment its acquisition is granted until
/// its release, a writer is held on its collection, so that neither another
/// insert nor a drop nor a search is let in; once it is over nothing is
/// held on the collection; and what is held on other collections is never
/// touched.
pub proof fn lemma_insert_works_alone(
    s: InsertBatchView,
    held: Held,
    event: InsertEvent,
    bystander: Seq<char>,
)
    requires
        s.wf(),
        exclusive(held),
        bystander != s.collection,
        s.holds_collection() ==> holders_of(held, s.collection) == (Holders {
            readers: 0,
            writer: true,
        }),
        s.pending() is Acquire && event is Done ==> may_write(holders_of(held, s.collection)),
    ensures
        ({
            let after = held_after_writing(
                held,
                s.collection,
                s.pending() is Acquire,
                s.pending() is Release,
                event is Done,
            );
            &&& exclusive(after)
            &&& holders_of(after, bystander) == holders_of(held, bystander)
            &&& s.step(event) matches InsertProgressView::Next { machine, .. } ==> {
                &&& machine.holds_collection()
                &&& holders_of(after, machine.collection) == (Holders { readers: 0, writer: true })
                &&& !may_write(holders_of(after, machine.collection))
                &&& !may_read(holders_of(after, machine.collection))
            }
            &&& s.step(event) is Finished && s.holds_collection() ==> holders_of(
                after,
                s.collection,
            ) == nobody()
            &&& s.step(event) is Finished && !s.holds_collection() ==> after == held
        }),
{
}

/// A drop works alone, as an insert does, against searches too.
pub proof fn lemma_drop_works_alone(
    s: DropCollectionView,
    held: Held,
    event: DropEvent,
    bystander: Seq<char>,
)
    requires
        exclusive(held),
        bystander != s.collection,
        s.holds_collection() ==> holders_of(held, s.collection) == (Holders {
            readers: 0,
            writer: true,
        }),
        s.pending() is Acquire && event is Done ==> may_write(holders_of(held, s.collection)),
    ensures
        ({
            let after = held_after_writing(
                held,
                s.collection,
                s.pending() is Acquire,
                s.pending() is Release,
                event is Done,
            );
            &&& exclusive(after)
            &&& holders_of(after, bystander) == holders_of(held, bystander)
            &&& s.step(event) matches DropProgressView::Next { machine, .. } ==> {
                &&& machine.holds_collection()
                &&& holders_of(after, machine.collection) == (Holders { readers: 0, writer: true })
                &&& !may_write(holders_of(after, machine.collection))
                &&& !may_read(holders_of(after, machine.collection))
            }
            &&& s.step(event) is Finished && s.holds_collection() ==> holders_of(
                after,
                s.collection,
            ) == nobody()
            &&& s.step(event) is Finished && !s.holds_collection() ==> after == held
        }),
{
}

/// A search shares its collection with searches and with nothing else: from
/// the moment its acquisition is granted until its release, a reader is
/// held on its collection, so that neither an insert nor a drop is let in;
/// once it is over it holds the collection no more; and what is held on
/// other collections is never touched.
pub proof fn lemma_search_keeps_writers_out(
    s: SearchBatchView,
    held: Held,
    event: SearchEventView,
    bystander: Seq<char>,
)
    requires
        s.wf(),
        exclusive(held),
        bystander != s.collection,
        s.holds_collection() ==> holders_of(held, s.collection).readers > 0,
        s.pending() is Acquire && event is Done ==> may_read(holders_of(held, s.collection)),
    ensures
        ({
            let after = if s.pending() is Acquire && event is Done {
                after_try_read(held, s.collection)
            } else if s.pending() is Release {
                after_release_read(held, s.collection)
            } else {
                held
            };
            &&& exclusive(after)
            &&& holders_of(after, bystander) == holders_of(held, bystander)
            &&& s.step(event) matches SearchProgressView::Next { machine, .. } ==> {
                &&& machine.holds_collection()
                &&& holders_of(after, machine.collection).readers > 0
                &&& !holders_of(after, machine.collection).writer
                &&& !may_write(holders_of(after, machine.collection))
            }
            &&& s.step(event) is Finished && s.holds_collection() ==> holders_of(
                after,
                s.collection,
            ).readers == holders_of(held, s.collection).readers - 1
            &&& s.step(event) is Finished && !s.holds_collection() ==> after == held
        }),
{
}

} // verus!
