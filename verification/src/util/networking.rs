//! Telling a session which clients are near it.

use vstd::prelude::*;

use crate::client::Client;
use crate::messages::{InformNearbyClients, Message, MessageView};
use crate::state::dereferenced;

verus! {

/// The most account ids that one frame carries.
pub const MAX_IDS_PER_FRAME: usize = 50;

/// The account ids of `clients`, in their order, without `except`.
pub open spec fn other_ids(clients: Seq<Client>, except: u64) -> Seq<u64>
    decreases clients.len(),
{
    if clients.len() == 0 {
        Seq::empty()
    } else if clients.last().steam_id == except {
        other_ids(clients.drop_last(), except)
    } else {
        other_ids(clients.drop_last(), except).push(clients.last().steam_id)
    }
}

/// The list cut into pieces of `MAX_IDS_PER_FRAME` ids; the last piece may
/// be shorter, and an empty list has no piece.
pub open spec fn chunks(ids: Seq<u64>) -> Seq<Seq<u64>>
    decreases ids.len(),
{
    if ids.len() == 0 {
        Seq::empty()
    } else if ids.len() <= MAX_IDS_PER_FRAME {
        seq![ids]
    } else {
        seq![ids.take(MAX_IDS_PER_FRAME as int)] + chunks(ids.skip(MAX_IDS_PER_FRAME as int))
    }
}

/// One frame for each piece of the list.
pub open spec fn inform_frames(ids: Seq<u64>) -> Seq<MessageView> {
    Seq::new(chunks(ids).len(), |i: int| MessageView::InformNearbyClients(chunks(ids)[i]))
}

/// What a session is told of the clients near it: nothing unless two or
/// more are near (the session itself is one of them), else the account ids
/// of the others.
pub open spec fn nearby_report(except: u64, nearby: Seq<Client>) -> Seq<MessageView> {
    if nearby.len() > 1 {
        inform_frames(other_ids(nearby, except))
    } else {
        Seq::empty()
    }
}

/// The messages of a list as plain values.
pub open spec fn views(messages: Seq<Message>) -> Seq<MessageView> {
    Seq::new(messages.len(), |i: int| messages[i]@)
}

/// The pieces are never empty and never longer than `MAX_IDS_PER_FRAME`,
/// and one after the other they are the list.
pub proof fn lemma_chunks(ids: Seq<u64>)
    ensures
        forall|i: int|
            0 <= i < chunks(ids).len() ==> 1 <= (#[trigger] chunks(ids)[i]).len()
                <= MAX_IDS_PER_FRAME,
        chunks(ids).flatten() == ids,
    decreases ids.len(),
{
    if ids.len() == 0 {
        assert(chunks(ids).flatten() =~= ids);
    } else if ids.len() <= MAX_IDS_PER_FRAME {
        seq![ids].lemma_flatten_one_element();
    } else {
        let head = ids.take(MAX_IDS_PER_FRAME as int);
        let tail = ids.skip(MAX_IDS_PER_FRAME as int);
        lemma_chunks(tail);
        let pieces = chunks(ids);
        assert forall|i: int| 0 <= i < pieces.len() implies 1 <= (#[trigger] pieces[i]).len()
            <= MAX_IDS_PER_FRAME by {
            if i > 0 {
                assert(pieces[i] == chunks(tail)[i - 1]);
            }
        }
        assert(pieces.drop_first() =~= chunks(tail));
        assert(pieces.flatten() =~= head + chunks(tail).flatten());
        assert(head + tail =~= ids);
    }
}

/// Cutting a list that starts with a full piece.
proof fn lemma_chunks_step(done: Seq<u64>, rest: Seq<u64>)
    requires
        done.len() % (MAX_IDS_PER_FRAME as nat) == 0,
        rest.len() > 0,
    ensures
        chunks(done + rest) == chunks(done) + chunks(rest),
    decreases done.len(),
{
    if done.len() == 0 {
        assert(done + rest =~= rest);
        assert(chunks(done) + chunks(rest) =~= chunks(rest));
    } else {
        let all = done + rest;
        let size = MAX_IDS_PER_FRAME as int;
        assert(all.take(size) =~= done.take(size));
        assert(all.skip(size) =~= done.skip(size) + rest);
        lemma_chunks_step(done.skip(size), rest);
        if done.len() == size {
            assert(done.take(size) =~= done);
            assert(done.skip(size) =~= Seq::<u64>::empty());
            assert(chunks(done) =~= seq![done]);
        }
        assert(chunks(all) =~= chunks(done) + chunks(rest));
    }
}

/// The frames that tell a session which clients are near it: the account
/// ids of `clients` without `except_steam_id`, at most `MAX_IDS_PER_FRAME`
/// to a frame.
pub fn send_nearby_clients(except_steam_id: &u64, clients: &Vec<&Client>) -> (frames: Vec<Message>)
    ensures
        views(frames@) == inform_frames(other_ids(dereferenced(clients@), *except_steam_id)),
{
    let ghost all = dereferenced(clients@);
    let mut nearby_client_ids: Vec<u64> = Vec::new();
    let mut i: usize = 0;
    assert(all.take(0) =~= Seq::<Client>::empty());
    while i < clients.len()
        invariant
            i <= clients@.len(),
            all == dereferenced(clients@),
            nearby_client_ids@ == other_ids(all.take(i as int), *except_steam_id),
        decreases clients@.len() - i,
    {
        let client: &Client = clients[i];
        proof {
            let next = all.take(i + 1);
            assert(next.drop_last() =~= all.take(i as int));
            assert(next.last() == *client);
        }
        if client.steam_id != *except_steam_id {
            nearby_client_ids.push(client.steam_id);
        }
        i = i + 1;
    }
    assert(all.take(i as int) =~= all);
    let ghost ids = nearby_client_ids@;
    let mut frames: Vec<Message> = Vec::new();
    let mut start: usize = 0;
    assert(ids.take(0) =~= Seq::<u64>::empty());
    assert(views(frames@) =~= inform_frames(ids.take(0)));
    while start < nearby_client_ids.len()
        invariant
            ids == nearby_client_ids@,
            start <= ids.len(),
            start % MAX_IDS_PER_FRAME == 0 || start == ids.len(),
            views(frames@) == inform_frames(ids.take(start as int)),
        decreases ids.len() - start,
    {
        let end: usize = if nearby_client_ids.len() - start > MAX_IDS_PER_FRAME {
            start + MAX_IDS_PER_FRAME
        } else {
            nearby_client_ids.len()
        };
        let mut chunk: Vec<u64> = Vec::new();
        let mut j: usize = start;
        while j < end
            invariant
                ids == nearby_client_ids@,
                start <= j <= end <= ids.len(),
                chunk@ == ids.subrange(start as int, j as int),
            decreases end - j,
        {
            chunk.push(nearby_client_ids[j]);
            assert(chunk@ =~= ids.subrange(start as int, j + 1));
            j = j + 1;
        }
        proof {
            let done = ids.take(start as int);
            let piece = ids.subrange(start as int, end as int);
            lemma_chunks_step(done, ids.subrange(start as int, ids.len() as int));
            if end < ids.len() {
                lemma_chunks_step(done + piece, ids.subrange(end as int, ids.len() as int));
                lemma_chunks_step(done, piece);
                assert(piece.take(MAX_IDS_PER_FRAME as int) =~= piece);
            } else {
                lemma_chunks_step(done, piece);
            }
            assert(chunks(piece) =~= seq![piece]);
            assert(done + piece =~= ids.take(end as int));
        }
        let ghost previous = frames@;
        frames.push(Message::InformNearbyClients(InformNearbyClients { client_ids: chunk }));
        proof {
            assert(views(frames@) =~= views(previous).push(
                MessageView::InformNearbyClients(chunk@),
            ));
            assert(views(frames@) =~= inform_frames(ids.take(end as int)));
        }
        start = end;
    }
    assert(ids.take(start as int) =~= ids);
    frames
}

} // verus!
