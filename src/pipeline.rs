//! The decisions of a full restore: a one-shot copy of a dump from a bridge
//! (the supplier) to a destination (the consumer) through a channel that holds
//! at most one message. The machine here decides; the caller performs each
//! action it returns and reports the outcome back as an event.

use vstd::prelude::*;

verus! {

/// Raw dump bytes.
pub type Bytes = Vec<u8>;

/// How many undelivered messages the channel between the download worker and
/// the consumer may hold: the worker blocks on a second one.
pub const CHANNEL_CAPACITY: usize = 1;

/// What travels on the channel: a chunk, or the end of the stream, sent once
/// and last.
#[derive(Debug)]
pub enum Message<T> {
    Data(T),
    EOF,
}

/// Which dump the bridge downloads.
#[derive(Debug)]
pub enum DownloadOptions {
    /// The most recent dump.
    Latest,
    /// The dump with this name.
    Dump { name: String },
}

/// A full restore from `bridge` into `destination`.
pub struct FullRestoreTask<D, B> {
    destination: D,
    bridge: B,
    bridge_download_options: DownloadOptions,
}

impl<D, B> FullRestoreTask<D, B> {
    /// The destination the dump is restored into.
    pub closed spec fn destination_spec(&self) -> D {
        self.destination
    }

    /// The bridge the dump is downloaded from.
    pub closed spec fn bridge_spec(&self) -> B {
        self.bridge
    }

    /// Which dump the bridge downloads.
    pub closed spec fn options_spec(&self) -> DownloadOptions {
        self.bridge_download_options
    }

    /// A task that restores through `bridge` with `bridge_download_options`
    /// into `destination`.
    pub fn new(destination: D, bridge: B, bridge_download_options: DownloadOptions) -> (r: Self)
        ensures
            r.destination_spec() == destination,
            r.bridge_spec() == bridge,
            r.options_spec() == bridge_download_options,
    {
        FullRestoreTask { destination, bridge, bridge_download_options }
    }

    /// The download options of the task.
    pub fn download_options(&self) -> (r: &DownloadOptions)
        ensures
            *r == self.options_spec(),
    {
        &self.bridge_download_options
    }

    /// Hands out the destination, the bridge and the download options, for the
    /// caller to run the restore with.
    pub fn into_parts(self) -> (r: (D, B, DownloadOptions))
        ensures
            r.0 == self.destination_spec(),
            r.1 == self.bridge_spec(),
            r.2 == self.options_spec(),
    {
        (self.destination, self.bridge, self.bridge_download_options)
    }
}

/// Where a restore stands.
#[derive(Debug)]
pub enum RestoreStage<E> {
    /// Nothing done yet: the destination is to be initialised.
    Start,
    /// The destination is ready: the bridge is to be initialised.
    DestinationReady,
    /// Both sides are ready: the download worker is to be started.
    BridgeReady,
    /// The consumer waits for the next message.
    Receiving,
    /// A chunk is with the destination.
    Inserting,
    /// The consumer loop is over: the worker is to be joined, then the task
    /// ends with the result held here.
    Joining(Result<(), E>),
    /// The task has ended.
    Done,
}

/// What the caller reports back.
#[derive(Debug)]
pub enum RestoreEvent<E> {
    DestinationInitialized(Result<(), E>),
    BridgeInitialized(Result<(), E>),
    /// The worker runs the download, sending each chunk as a data message,
    /// then the end of the stream.
    DownloadStarted,
    Received(Message<Bytes>),
    Inserted(Result<(), E>),
    Joined,
}

/// What the caller is to do next.
#[derive(Debug)]
pub enum RestoreAction<E> {
    InitializeDestination,
    InitializeBridge,
    /// Create the channel and spawn the worker that owns the bridge.
    StartDownload,
    /// Receive the next message from the channel.
    Receive,
    /// Hand this chunk to the destination.
    Insert(Bytes),
    /// Wait for the worker to finish.
    Join,
    /// The task is over, with this result.
    Finish(Result<(), E>),
}

/// Whether `event` is the report that `stage` waits for.
pub open spec fn accepts<E>(stage: RestoreStage<E>, event: RestoreEvent<E>) -> bool {
    match (stage, event) {
        (RestoreStage::Start, RestoreEvent::DestinationInitialized(_)) => true,
        (RestoreStage::DestinationReady, RestoreEvent::BridgeInitialized(_)) => true,
        (RestoreStage::BridgeReady, RestoreEvent::DownloadStarted) => true,
        (RestoreStage::Receiving, RestoreEvent::Received(_)) => true,
        (RestoreStage::Inserting, RestoreEvent::Inserted(_)) => true,
        (RestoreStage::Joining(_), RestoreEvent::Joined) => true,
        _ => false,
    }
}

/// The stage after `event`, and the action it calls for.
pub open spec fn transition<E>(stage: RestoreStage<E>, event: RestoreEvent<E>) -> (
    RestoreStage<E>,
    RestoreAction<E>,
) {
    match (stage, event) {
        (RestoreStage::Start, RestoreEvent::DestinationInitialized(Ok(()))) => (
            RestoreStage::DestinationReady,
            RestoreAction::InitializeBridge,
        ),
        (RestoreStage::DestinationReady, RestoreEvent::BridgeInitialized(Ok(()))) => (
            RestoreStage::BridgeReady,
            RestoreAction::StartDownload,
        ),
        (RestoreStage::BridgeReady, RestoreEvent::DownloadStarted) => (
            RestoreStage::Receiving,
            RestoreAction::Receive,
        ),
        (RestoreStage::Receiving, RestoreEvent::Received(Message::Data(d))) => (
            RestoreStage::Inserting,
            RestoreAction::Insert(d),
        ),
        (RestoreStage::Receiving, RestoreEvent::Received(Message::EOF)) => (
            RestoreStage::Joining(Ok(())),
            RestoreAction::Join,
        ),
        (RestoreStage::Inserting, RestoreEvent::Inserted(Ok(()))) => (
            RestoreStage::Receiving,
            RestoreAction::Receive,
        ),
        (RestoreStage::Inserting, RestoreEvent::Inserted(Err(e))) => (
            RestoreStage::Joining(Err(e)),
            RestoreAction::Join,
        ),
        (RestoreStage::Joining(r), RestoreEvent::Joined) => (RestoreStage::Done, RestoreAction::Finish(r)),
        (RestoreStage::Start, RestoreEvent::DestinationInitialized(Err(e))) => (
            RestoreStage::Done,
            RestoreAction::Finish(Err(e)),
        ),
        (RestoreStage::DestinationReady, RestoreEvent::BridgeInitialized(Err(e))) => (
            RestoreStage::Done,
            RestoreAction::Finish(Err(e)),
        ),
        // a report that is not awaited; `RestoreMachine::on_event` never takes one
        (s, _) => (s, RestoreAction::Receive),
    }
}

/// The stage and the actions after reporting `events` in order from `stage`,
/// or `None` if one of them is not the report awaited.
pub open spec fn drive<E>(stage: RestoreStage<E>, events: Seq<RestoreEvent<E>>) -> Option<
    (RestoreStage<E>, Seq<RestoreAction<E>>),
>
    decreases events.len(),
{
    if events.len() == 0 {
        Some((stage, Seq::<RestoreAction<E>>::empty()))
    } else if !accepts(stage, events[0]) {
        None
    } else {
        let (next, action) = transition(stage, events[0]);
        match drive(next, events.drop_first()) {
            None => None,
            Some((last, actions)) => Some((last, seq![action] + actions)),
        }
    }
}

/// The reports of a consumer loop in which every chunk of `chunks` arrives
/// and is inserted without error.
pub open spec fn delivery_events<E>(chunks: Seq<Bytes>) -> Seq<RestoreEvent<E>>
    decreases chunks.len(),
{
    if chunks.len() == 0 {
        Seq::<RestoreEvent<E>>::empty()
    } else {
        seq![
            RestoreEvent::Received(Message::Data(chunks[0])),
            RestoreEvent::Inserted(Ok(())),
        ] + delivery_events(chunks.drop_first())
    }
}

/// The actions of that loop: each chunk handed to the destination, in order,
/// each time followed by the next receive.
pub open spec fn delivery_actions<E>(chunks: Seq<Bytes>) -> Seq<RestoreAction<E>>
    decreases chunks.len(),
{
    if chunks.len() == 0 {
        Seq::<RestoreAction<E>>::empty()
    } else {
        seq![RestoreAction::Insert(chunks[0]), RestoreAction::Receive] + delivery_actions(
            chunks.drop_first(),
        )
    }
}

/// The reports of a restore in which both sides initialise and the supplier
/// sends `chunks`, then stops.
pub open spec fn successful_restore_events<E>(chunks: Seq<Bytes>) -> Seq<RestoreEvent<E>> {
    seq![
        RestoreEvent::DestinationInitialized(Ok(())),
        RestoreEvent::BridgeInitialized(Ok(())),
        RestoreEvent::DownloadStarted,
    ] + delivery_events(chunks) + seq![RestoreEvent::Received(Message::EOF), RestoreEvent::Joined]
}

proof fn lemma_delivery<E>(chunks: Seq<Bytes>, tail: Seq<RestoreEvent<E>>)
    ensures
        drive(RestoreStage::Receiving, delivery_events::<E>(chunks) + tail) == match drive(
            RestoreStage::Receiving,
            tail,
        ) {
            None => None,
            Some((last, actions)) => Some((last, delivery_actions::<E>(chunks) + actions)),
        },
    decreases chunks.len(),
{
    if chunks.len() > 0 {
        let rest = chunks.drop_first();
        lemma_delivery::<E>(rest, tail);
        let evs = delivery_events::<E>(chunks) + tail;
        let inserted = seq![RestoreEvent::<E>::Inserted(Ok(()))] + (delivery_events::<E>(rest) + tail);
        assert(evs.drop_first() =~= inserted);
        assert(inserted.drop_first() =~= delivery_events::<E>(rest) + tail);
        assert(evs[0] == RestoreEvent::<E>::Received(Message::Data(chunks[0])));
        assert(inserted[0] == RestoreEvent::<E>::Inserted(Ok(())));
        let after = drive(RestoreStage::<E>::Receiving, delivery_events::<E>(rest) + tail);
        assert(drive(RestoreStage::<E>::Inserting, inserted) == match after {
            None => None,
            Some((last, actions)) => Some((last, seq![RestoreAction::<E>::Receive] + actions)),
        });
        assert(drive(RestoreStage::<E>::Receiving, evs) == match drive(RestoreStage::<E>::Inserting, inserted) {
            None => None,
            Some((last, actions)) => Some((last, seq![RestoreAction::<E>::Insert(chunks[0])] + actions)),
        });
        match drive(RestoreStage::<E>::Receiving, tail) {
            None => {},
            Some((last, actions)) => {
                let d = delivery_actions::<E>(rest) + actions;
                assert(seq![RestoreAction::<E>::Insert(chunks[0])] + (seq![RestoreAction::<E>::Receive] + d)
                    =~= delivery_actions::<E>(chunks) + actions);
            },
        }
    }
}

/// A restore whose two sides initialise and whose supplier sends `chunks`
/// then stops hands exactly those chunks to the destination, in order, and
/// ends in success.
pub proof fn lemma_successful_restore<E>(chunks: Seq<Bytes>)
    ensures
        drive(RestoreStage::Start, successful_restore_events::<E>(chunks)) == Some(
            (
                RestoreStage::<E>::Done,
                seq![
                    RestoreAction::<E>::InitializeBridge,
                    RestoreAction::StartDownload,
                    RestoreAction::Receive,
                ] + delivery_actions::<E>(chunks) + seq![
                    RestoreAction::Join,
                    RestoreAction::Finish(Ok(())),
                ],
            ),
        ),
{
    let tail = seq![RestoreEvent::<E>::Received(Message::EOF), RestoreEvent::Joined];
    assert(tail.drop_first() =~= seq![RestoreEvent::<E>::Joined]);
    assert(seq![RestoreEvent::<E>::Joined].drop_first() =~= Seq::<RestoreEvent<E>>::empty());
    let fin = seq![RestoreAction::<E>::Join, RestoreAction::Finish(Ok(()))];
    assert(seq![RestoreAction::<E>::Join] + (seq![RestoreAction::<E>::Finish(Ok(()))] + Seq::<RestoreAction<E>>::empty()) =~= fin);
    let joined = seq![RestoreEvent::<E>::Joined];
    assert(drive(RestoreStage::<E>::Done, joined.drop_first()) == Some((RestoreStage::<E>::Done, Seq::<RestoreAction<E>>::empty())));
    assert(drive(RestoreStage::<E>::Joining(Ok(())), joined) == Some((RestoreStage::<E>::Done, seq![RestoreAction::<E>::Finish(Ok(()))] + Seq::<RestoreAction<E>>::empty())));
    assert(drive(RestoreStage::<E>::Receiving, tail) == Some((RestoreStage::<E>::Done, seq![RestoreAction::<E>::Join] + (seq![RestoreAction::<E>::Finish(Ok(()))] + Seq::<RestoreAction<E>>::empty()))));
    lemma_delivery::<E>(chunks, tail);
    let evs = successful_restore_events::<E>(chunks);
    let d = delivery_events::<E>(chunks) + tail;
    let e1 = seq![RestoreEvent::<E>::BridgeInitialized(Ok(())), RestoreEvent::DownloadStarted] + d;
    let e2 = seq![RestoreEvent::<E>::DownloadStarted] + d;
    assert(evs.drop_first() =~= e1);
    assert(e1.drop_first() =~= e2);
    assert(e2.drop_first() =~= d);
    let acts0 = delivery_actions::<E>(chunks) + fin;
    assert(drive(RestoreStage::<E>::Receiving, d) == Some((RestoreStage::<E>::Done, acts0)));
    assert(drive(RestoreStage::<E>::BridgeReady, e2) == Some((RestoreStage::<E>::Done, seq![RestoreAction::<E>::Receive] + acts0)));
    assert(drive(RestoreStage::<E>::DestinationReady, e1) == Some((RestoreStage::<E>::Done, seq![RestoreAction::<E>::StartDownload] + (seq![RestoreAction::<E>::Receive] + acts0))));
    assert(evs[0] == RestoreEvent::<E>::DestinationInitialized(Ok(())));
    let acts = delivery_actions::<E>(chunks) + fin;
    assert(seq![RestoreAction::<E>::InitializeBridge] + (seq![RestoreAction::<E>::StartDownload] + (seq![RestoreAction::<E>::Receive] + acts))
        =~= seq![
                    RestoreAction::<E>::InitializeBridge,
                    RestoreAction::StartDownload,
                    RestoreAction::Receive,
                ] + delivery_actions::<E>(chunks) + fin);
}

/// A destination that fails to initialise ends the restore at once with its
/// error, and no report is awaited after that: the bridge is never
/// initialised and no download starts.
pub proof fn lemma_destination_failure_ends<E>(e: E)
    ensures
        transition(RestoreStage::Start, RestoreEvent::DestinationInitialized(Err(e))) == (
            RestoreStage::<E>::Done,
            RestoreAction::<E>::Finish(Err(e)),
        ),
        forall|ev: RestoreEvent<E>| !accepts(RestoreStage::Done, ev),
        forall|evs: Seq<RestoreEvent<E>>|
            #![trigger drive(RestoreStage::<E>::Start, evs)]
            evs.len() > 0 && evs[0] == RestoreEvent::<E>::DestinationInitialized(Err(e))
            ==> drive(RestoreStage::<E>::Start, evs) == if evs.len() == 1 {
                Some((RestoreStage::<E>::Done, seq![RestoreAction::<E>::Finish(Err(e))]))
            } else {
                None
            },
{
    assert forall|evs: Seq<RestoreEvent<E>>|
        evs.len() > 0 && evs[0] == RestoreEvent::<E>::DestinationInitialized(Err(e))
        implies #[trigger] drive(RestoreStage::<E>::Start, evs) == if evs.len() == 1 {
            Some((RestoreStage::<E>::Done, seq![RestoreAction::<E>::Finish(Err(e))]))
        } else {
            None
        } by {
        let rest = evs.drop_first();
        if rest.len() > 0 {
            assert(!accepts(RestoreStage::<E>::Done, rest[0]));
            assert(drive(RestoreStage::<E>::Done, rest) is None);
        } else {
            assert(drive(RestoreStage::<E>::Done, rest) == Some((RestoreStage::<E>::Done, Seq::<RestoreAction<E>>::empty())));
            assert(seq![RestoreAction::<E>::Finish(Err(e))] + Seq::<RestoreAction<E>>::empty() =~= seq![RestoreAction::<E>::Finish(Err(e))]);
        }
    }
}

/// Backpressure: the channel holds at most one undelivered message, and the
/// consumer takes no further message while a chunk is with the destination;
/// after a data message only the destination's report is awaited.
pub proof fn lemma_one_chunk_in_flight<E>(d: Bytes)
    ensures
        CHANNEL_CAPACITY == 1,
        transition(RestoreStage::<E>::Receiving, RestoreEvent::Received(Message::Data(d))) == (
            RestoreStage::<E>::Inserting,
            RestoreAction::<E>::Insert(d),
        ),
        forall|ev: RestoreEvent<E>| #[trigger] accepts(RestoreStage::Inserting, ev) ==> ev is Inserted,
{
}

/// The decisions of one full restore.
pub struct RestoreMachine<E> {
    stage: RestoreStage<E>,
}

impl<E> RestoreMachine<E> {
    /// The stage the restore is at.
    pub closed spec fn stage(&self) -> RestoreStage<E> {
        self.stage
    }

    /// A restore that has not started; its first action is
    /// `RestoreAction::InitializeDestination`.
    pub fn new() -> (r: Self)
        ensures
            r.stage() == RestoreStage::<E>::Start,
    {
        RestoreMachine { stage: RestoreStage::Start }
    }

    /// The action a restore starts with.
    pub fn first_action(&self) -> (r: RestoreAction<E>)
        ensures
            r == RestoreAction::<E>::InitializeDestination,
    {
        RestoreAction::InitializeDestination
    }

    /// Whether the restore has ended.
    pub fn is_done(&self) -> (r: bool)
        ensures
            r == (self.stage() is Done),
    {
        match self.stage {
            RestoreStage::Done => true,
            _ => false,
        }
    }

    /// Whether `event` is the report the restore waits for.
    pub fn accepts_event(&self, event: &RestoreEvent<E>) -> (r: bool)
        ensures
            r == accepts(self.stage(), *event),
    {
        match (&self.stage, event) {
            (RestoreStage::Start, RestoreEvent::DestinationInitialized(_)) => true,
            (RestoreStage::DestinationReady, RestoreEvent::BridgeInitialized(_)) => true,
            (RestoreStage::BridgeReady, RestoreEvent::DownloadStarted) => true,
            (RestoreStage::Receiving, RestoreEvent::Received(_)) => true,
            (RestoreStage::Inserting, RestoreEvent::Inserted(_)) => true,
            (RestoreStage::Joining(_), RestoreEvent::Joined) => true,
            _ => false,
        }
    }

    /// Takes in the outcome of the last action and returns the next one.
    pub fn on_event(&mut self, event: RestoreEvent<E>) -> (r: RestoreAction<E>)
        requires
            accepts(old(self).stage(), event),
        ensures
            (final(self).stage(), r) == transition(old(self).stage(), event),
    {
        let mut stage = RestoreStage::Done;
        core::mem::swap(&mut self.stage, &mut stage);
        let (next, action) = match (stage, event) {
            (RestoreStage::Start, RestoreEvent::DestinationInitialized(Ok(()))) => (
                RestoreStage::DestinationReady,
                RestoreAction::InitializeBridge,
            ),
            (RestoreStage::Start, RestoreEvent::DestinationInitialized(Err(e))) => (
                RestoreStage::Done,
                RestoreAction::Finish(Err(e)),
            ),
            (RestoreStage::DestinationReady, RestoreEvent::BridgeInitialized(Ok(()))) => (
                RestoreStage::BridgeReady,
                RestoreAction::StartDownload,
            ),
            (RestoreStage::DestinationReady, RestoreEvent::BridgeInitialized(Err(e))) => (
                RestoreStage::Done,
                RestoreAction::Finish(Err(e)),
            ),
            (RestoreStage::BridgeReady, RestoreEvent::DownloadStarted) => (
                RestoreStage::Receiving,
                RestoreAction::Receive,
            ),
            (RestoreStage::Receiving, RestoreEvent::Received(Message::Data(d))) => (
                RestoreStage::Inserting,
                RestoreAction::Insert(d),
            ),
            (RestoreStage::Receiving, RestoreEvent::Received(Message::EOF)) => (
                RestoreStage::Joining(Ok(())),
                RestoreAction::Join,
            ),
            (RestoreStage::Inserting, RestoreEvent::Inserted(Ok(()))) => (
                RestoreStage::Receiving,
                RestoreAction::Receive,
            ),
            (RestoreStage::Inserting, RestoreEvent::Inserted(Err(e))) => (
                RestoreStage::Joining(Err(e)),
                RestoreAction::Join,
            ),
            (RestoreStage::Joining(r), RestoreEvent::Joined) => (
                RestoreStage::Done,
                RestoreAction::Finish(r),
            ),
            (s, _) => (s, RestoreAction::Receive),
        };
        self.stage = next;
        action
    }
}

} // verus!
