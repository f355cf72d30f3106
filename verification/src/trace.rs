//! Runs of a session: what it sends over a whole sequence of events, what
//! each client gets of that, and what holds of every run.

use crate::host::{
    establishing, fan_out, fan_out_one, role_at, update_messages, Client, DeliveryView, Event,
    HostView,
};
use crate::message::{ToClientMessageView, ToServerMessage};
use crate::sim::{lemma_tick_updates_give_ticked_state, HOOP_MAX_X, HOOP_MIN_X, SINGLE_BALL_ID};
use crate::state::{applied_all, GameStateView, UpdateState};
use vstd::prelude::*;

verus! {

impl HostView {
    /// The session after handling `events` one after the other.
    pub open spec fn run(self, events: Seq<Event>) -> HostView
        decreases events.len(),
    {
        if events.len() == 0 {
            self
        } else {
            self.run(events.drop_last()).after(events.last())
        }
    }

    /// Everything the session has to deliver while it handles `events`, in
    /// the order in which it is to be written.
    pub open spec fn sent(self, events: Seq<Event>) -> Seq<DeliveryView>
        decreases events.len(),
    {
        if events.len() == 0 {
            Seq::empty()
        } else {
            self.sent(events.drop_last()) + self.run(events.drop_last()).deliveries(events.last())
        }
    }
}

/// The messages among `deliveries` that are for `client`, in their order.
pub open spec fn inbox(deliveries: Seq<DeliveryView>, client: u64) -> Seq<ToClientMessageView>
    decreases deliveries.len(),
{
    if deliveries.len() == 0 {
        Seq::empty()
    } else if deliveries.last().client == client {
        inbox(deliveries.drop_last(), client).push(deliveries.last().message)
    } else {
        inbox(deliveries.drop_last(), client)
    }
}

/// The state that a client holds which has received `messages`: it takes a
/// snapshot as it comes, applies each update to what it holds, and holds
/// nothing yet before the first snapshot.
pub open spec fn mirrored(messages: Seq<ToClientMessageView>) -> Option<GameStateView>
    decreases messages.len(),
{
    if messages.len() == 0 {
        None
    } else {
        let held = mirrored(messages.drop_last());
        match messages.last() {
            ToClientMessageView::InitialState(state) => Some(state),
            ToClientMessageView::UpdateState(update) => match held {
                Some(state) => Some(update.applied(state)),
                None => None,
            },
            _ => held,
        }
    }
}

/// The message tells a client its role.
pub open spec fn is_establishing(message: ToClientMessageView) -> bool {
    message is EstablishAsHoop || message is EstablishAsBall || message is EstablishAsObserver
}

/// `messages` is what a client may see of a session: nothing at all, or the
/// whole state first, then its role, and from then on updates only.
pub open spec fn snapshot_comes_first(messages: Seq<ToClientMessageView>) -> bool {
    messages.len() == 0 || {
        &&& messages.len() >= 2
        &&& messages[0] is InitialState
        &&& is_establishing(messages[1])
        &&& forall|i: int| 2 <= i < messages.len() ==> (#[trigger] messages[i]) is UpdateState
    }
}

/// The event takes a client out of the session, or ends the session.
pub open spec fn is_departure(event: Event) -> bool {
    match event {
        Event::HandoffClosed => true,
        Event::WriteFailed { .. } => true,
        Event::ClientRead { result: Err(_), .. } => true,
        Event::ClientRead { result: Ok(ToServerMessage::Hello { .. }), .. } => true,
        _ => false,
    }
}

/// The event stems from this client: something read from it, or a write to
/// it that failed.
pub open spec fn concerns(event: Event, client: u64) -> bool {
    match event {
        Event::ClientRead { client: from, .. } => from == client,
        Event::WriteFailed { client: to } => to == client,
        _ => false,
    }
}

proof fn lemma_inbox_concat(first: Seq<DeliveryView>, second: Seq<DeliveryView>, client: u64)
    ensures
        inbox(first + second, client) == inbox(first, client) + inbox(second, client),
    decreases second.len(),
{
    if second.len() == 0 {
        assert(first + second =~= first);
        assert(inbox(first, client) + inbox(second, client) =~= inbox(first, client));
    } else {
        lemma_inbox_concat(first, second.drop_last(), client);
        assert((first + second).drop_last() =~= first + second.drop_last());
        assert((first + second).last() == second.last());
        if second.last().client == client {
            assert(inbox(first, client) + inbox(second.drop_last(), client).push(
                second.last().message,
            ) =~= (inbox(first, client) + inbox(second.drop_last(), client)).push(
                second.last().message,
            ));
        }
    }
}

/// The identifiers of `clients` ascend.
pub open spec fn ascending(clients: Seq<Client>) -> bool {
    forall|i: int, j: int| 0 <= i < j < clients.len() ==> clients[i].id < clients[j].id
}

/// One of `clients` has this identifier.
pub open spec fn among(clients: Seq<Client>, client: u64) -> bool {
    exists|i: int| 0 <= i < clients.len() && clients[i].id == client
}

proof fn lemma_inbox_fan_out_one(clients: Seq<Client>, message: ToClientMessageView, client: u64)
    requires
        ascending(clients),
    ensures
        inbox(fan_out_one(clients, message), client) == (if among(clients, client) {
            seq![message]
        } else {
            Seq::empty()
        }),
    decreases clients.len(),
{
    let all = fan_out_one(clients, message);
    if clients.len() == 0 {
    } else {
        let earlier = clients.drop_last();
        lemma_inbox_fan_out_one(earlier, message, client);
        assert(all.drop_last() =~= fan_out_one(earlier, message));
        assert(all.last().client == clients.last().id);
        if clients.last().id == client {
            assert(among(clients, client)) by {
                assert(clients[clients.len() - 1].id == client);
            }
            assert(!among(earlier, client)) by {
                if among(earlier, client) {
                    let k = choose|k: int| 0 <= k < earlier.len() && earlier[k].id == client;
                    assert(clients[k].id < clients[clients.len() - 1].id);
                }
            }
            assert(Seq::<ToClientMessageView>::empty().push(message) =~= seq![message]);
        } else {
            assert(among(clients, client) <==> among(earlier, client)) by {
                if among(clients, client) {
                    let k = choose|k: int| 0 <= k < clients.len() && clients[k].id == client;
                    assert(earlier[k].id == client);
                }
                if among(earlier, client) {
                    let k = choose|k: int| 0 <= k < earlier.len() && earlier[k].id == client;
                    assert(clients[k].id == client);
                }
            }
        }
    }
}

proof fn lemma_inbox_fan_out(
    clients: Seq<Client>,
    messages: Seq<ToClientMessageView>,
    client: u64,
)
    requires
        ascending(clients),
    ensures
        inbox(fan_out(clients, messages), client) == (if among(clients, client) {
            messages
        } else {
            Seq::empty()
        }),
    decreases messages.len(),
{
    if messages.len() == 0 {
        assert(messages =~= Seq::empty());
    } else {
        lemma_inbox_fan_out(clients, messages.drop_last(), client);
        lemma_inbox_fan_out_one(clients, messages.last(), client);
        lemma_inbox_concat(
            fan_out(clients, messages.drop_last()),
            fan_out_one(clients, messages.last()),
            client,
        );
        if among(clients, client) {
            assert(messages.drop_last() + seq![messages.last()] =~= messages);
        } else {
            assert(Seq::<ToClientMessageView>::empty() + Seq::<ToClientMessageView>::empty()
                =~= Seq::<ToClientMessageView>::empty());
        }
    }
}

proof fn lemma_mirrored_updates(messages: Seq<ToClientMessageView>, updates: Seq<UpdateState>)
    ensures
        mirrored(messages + update_messages(updates)) == (match mirrored(messages) {
            Some(state) => Some(applied_all(updates, state)),
            None => None,
        }),
    decreases updates.len(),
{
    if updates.len() == 0 {
        assert(messages + update_messages(updates) =~= messages);
    } else {
        let earlier = updates.drop_last();
        lemma_mirrored_updates(messages, earlier);
        let all = messages + update_messages(updates);
        assert(all.drop_last() =~= messages + update_messages(earlier));
        assert(all.last() == ToClientMessageView::UpdateState(updates.last()));
    }
}

/// Whatever a well-formed session handles, it stays well formed.
pub proof fn lemma_after_keeps_well_formed(host: HostView, event: Event)
    requires
        host.wf(),
    ensures
        host.after(event).wf(),
{
    let next = host.after(event);
    if host.ended {
    } else {
        match event {
            Event::NewConnection => {},
            Event::HandoffClosed => {},
            Event::ClientRead { client, result } => {
                if host.has_client(client) {
                    match result {
                        Ok(ToServerMessage::MoveHoop { .. }) => {},
                        Ok(ToServerMessage::ShootBall { .. }) => {},
                        Ok(ToServerMessage::Hello { .. }) => {
                            lemma_without_keeps_well_formed(host, client);
                        },
                        Err(_) => {
                            lemma_without_keeps_well_formed(host, client);
                        },
                    }
                }
            },
            Event::Tick { elapsed } => {},
            Event::WriteFailed { client } => {
                lemma_without_keeps_well_formed(host, client);
            },
        }
    }
}

proof fn lemma_without_keeps_well_formed(host: HostView, client: u64)
    requires
        host.wf(),
    ensures
        host.without(client).wf(),
{
    if !host.ended && host.has_client(client) {
        let at = host.position_of(client);
        let remaining = host.clients.remove(at);
        assert forall|i: int, j: int| 0 <= i < j < remaining.len() implies remaining[i].id
            < remaining[j].id by {
            let from_i = if i < at {
                i
            } else {
                i + 1
            };
            let from_j = if j < at {
                j
            } else {
                j + 1
            };
            assert(remaining[i] == host.clients[from_i]);
            assert(remaining[j] == host.clients[from_j]);
        }
        assert forall|i: int| 0 <= i < remaining.len() implies remaining[i].id
            < host.next_client by {
            let from_i = if i < at {
                i
            } else {
                i + 1
            };
            assert(remaining[i] == host.clients[from_i]);
        }
    }
}

/// Whatever a session handles, and in whatever order, it stays well formed;
/// in particular the hoop stays between the walls.
pub proof fn lemma_run_keeps_well_formed(host: HostView, events: Seq<Event>)
    requires
        host.wf(),
    ensures
        host.run(events).wf(),
        HOOP_MIN_X <= host.run(events).game.state.hoop_x.raw <= HOOP_MAX_X,
    decreases events.len(),
{
    if events.len() > 0 {
        lemma_run_keeps_well_formed(host, events.drop_last());
        lemma_after_keeps_well_formed(host.run(events.drop_last()), events.last());
    }
}

proof fn lemma_without_spares_the_others(host: HostView, client: u64, other: u64)
    requires
        host.wf(),
        other != client,
    ensures
        host.without(client).has_client(other) <==> host.has_client(other),
        host.has_client(other) ==> host.without(client).clients[host.without(client).position_of(
            other,
        )] == host.clients[host.position_of(other)],
{
    let rest = host.without(client);
    if !host.ended && host.has_client(client) {
        let at = host.position_of(client);
        if host.has_client(other) {
            let k = host.position_of(other);
            let moved = if k < at {
                k
            } else {
                k - 1
            };
            assert(rest.clients[moved] == host.clients[k]);
            assert(rest.has_client(other));
        }
        if rest.has_client(other) {
            let k = rest.position_of(other);
            let from = if k < at {
                k
            } else {
                k + 1
            };
            assert(rest.clients[k] == host.clients[from]);
            assert(host.has_client(other));
            lemma_position_is_unique(host, other, from);
        }
    }
}

proof fn lemma_position_is_unique(host: HostView, client: u64, at: int)
    requires
        host.wf(),
        0 <= at < host.clients.len(),
        host.clients[at].id == client,
    ensures
        host.has_client(client),
        host.position_of(client) == at,
{
    let chosen = host.position_of(client);
    if chosen < at {
        assert(host.clients[chosen].id < host.clients[at].id);
    }
    if chosen > at {
        assert(host.clients[at].id < host.clients[chosen].id);
    }
}

proof fn lemma_no_one_joins_unadmitted(host: HostView, event: Event, client: u64)
    requires
        host.wf(),
        !(event is NewConnection && host.admits()),
        host.after(event).has_client(client),
    ensures
        host.has_client(client),
        host.after(event).clients[host.after(event).position_of(client)] == host.clients[host.position_of(
            client,
        )],
{
    if !host.ended {
        match event {
            Event::ClientRead { client: from, result } => {
                if host.has_client(from) {
                    if from != client {
                        lemma_without_spares_the_others(host, from, client);
                    } else {
                        lemma_without_drops(host, from);
                    }
                }
            },
            Event::WriteFailed { client: to } => {
                if to != client {
                    lemma_without_spares_the_others(host, to, client);
                } else {
                    lemma_without_drops(host, to);
                }
            },
            _ => {},
        }
    }
}

proof fn lemma_without_drops(host: HostView, client: u64)
    requires
        host.wf(),
        !host.ended,
        host.has_client(client),
    ensures
        !host.without(client).has_client(client),
{
    let rest = host.without(client);
    let at = host.position_of(client);
    if rest.has_client(client) {
        let k = rest.position_of(client);
        let from = if k < at {
            k
        } else {
            k + 1
        };
        assert(rest.clients[k] == host.clients[from]);
        lemma_position_is_unique(host, client, from);
    }
}

/// If a client that applies updates as they come held the state before an
/// event, the updates for that event bring it to the state after the event.
pub proof fn lemma_updates_lead_to_next_state(host: HostView, event: Event)
    requires
        host.wf(),
    ensures
        applied_all(host.updates(event), host.game.state) == host.after(event).game.state,
{
    let updates = host.updates(event);
    if host.ended {
    } else {
        match event {
            Event::ClientRead { client, result } => {
                if host.has_client(client) {
                    match result {
                        Ok(ToServerMessage::MoveHoop { direction, seconds_pressed }) => {
                            assert(updates.drop_last() =~= Seq::empty());
                            assert(applied_all(updates.drop_last(), host.game.state)
                                == host.game.state);
                        },
                        _ => {},
                    }
                }
            },
            Event::Tick { elapsed } => {
                lemma_tick_updates_give_ticked_state(host.game, elapsed);
            },
            _ => {},
        }
    }
}

/// What one client gets of the deliveries for one event: a newcomer its
/// greeting, a client that is connected after the event every update, and
/// anyone else nothing.
pub proof fn lemma_inbox_of_one_event(host: HostView, event: Event, client: u64)
    requires
        host.wf(),
    ensures
        inbox(host.deliveries(event), client) == (if event is NewConnection && host.admits() {
            if client == host.next_client {
                seq![
                    ToClientMessageView::InitialState(host.game.state),
                    establishing(role_at(host.clients.len())),
                ]
            } else {
                Seq::empty()
            }
        } else if host.after(event).has_client(client) {
            update_messages(host.updates(event))
        } else {
            Seq::empty()
        }),
{
    if event is NewConnection && host.admits() {
        let greeting = host.greeting();
        let first = greeting.drop_last();
        assert(first.drop_last() =~= Seq::empty());
        assert(first.last() == greeting[0]);
        assert(greeting.last() == greeting[1]);
        assert(inbox(first.drop_last(), client) =~= Seq::empty());
        if client == host.next_client {
            assert(inbox(first, client) =~= seq![greeting[0].message]);
            assert(inbox(greeting, client) =~= seq![
                ToClientMessageView::InitialState(host.game.state),
                establishing(role_at(host.clients.len())),
            ]);
        } else {
            assert(inbox(first, client) =~= Seq::empty());
            assert(inbox(greeting, client) =~= Seq::empty());
        }
    } else {
        lemma_after_keeps_well_formed(host, event);
        lemma_inbox_fan_out(
            host.after(event).clients,
            update_messages(host.updates(event)),
            client,
        );
    }
}

/// A client never sees an update before it has seen the whole state.
///
/// Take a session and a client that has not joined it yet, and let the
/// session handle any events. What the client is sent is nothing at all, or
/// the whole state first, then its role, and from then on updates only. And
/// while the client is connected, the snapshot with the updates applied in
/// the order sent is the state of the game.
pub proof fn lemma_snapshot_comes_first(host: HostView, events: Seq<Event>, client: u64)
    requires
        host.wf(),
        client >= host.next_client,
    ensures
        snapshot_comes_first(inbox(host.sent(events), client)),
        host.run(events).has_client(client) ==> mirrored(inbox(host.sent(events), client))
            == Some(host.run(events).game.state),
        client >= host.run(events).next_client ==> inbox(host.sent(events), client).len() == 0,
        host.run(events).has_client(client) ==> inbox(host.sent(events), client).len() >= 2,
    decreases events.len(),
{
    if events.len() > 0 {
        let earlier = events.drop_last();
        let event = events.last();
        let before = host.run(earlier);
        let now = host.run(events);
        let held = inbox(host.sent(earlier), client);
        let added = inbox(before.deliveries(event), client);
        let all = inbox(host.sent(events), client);
        lemma_snapshot_comes_first(host, earlier, client);
        lemma_run_keeps_well_formed(host, earlier);
        lemma_after_keeps_well_formed(before, event);
        lemma_inbox_concat(host.sent(earlier), before.deliveries(event), client);
        lemma_inbox_of_one_event(before, event, client);
        assert(all == held + added);
        if event is NewConnection && before.admits() {
            if client == before.next_client {
                assert(held.len() == 0);
                assert(all =~= added);
                assert(now.clients[before.clients.len() as int].id == client);
                assert(now.has_client(client));
                let first = all.drop_last();
                assert(first.drop_last() =~= Seq::empty());
                assert(mirrored(first.drop_last()) == None::<GameStateView>);
                assert(first.last() == all[0]);
                assert(mirrored(first) == Some(before.game.state));
                assert(all.last() == all[1]);
                assert(mirrored(all) == Some(before.game.state));
            } else {
                assert(all =~= held);
                assert(client >= now.next_client ==> client >= before.next_client);
                if now.has_client(client) {
                    let k = now.position_of(client);
                    assert(0 <= k < now.clients.len() && now.clients[k].id == client);
                    assert(k < before.clients.len());
                    assert(before.clients[k].id == client);
                    assert(before.has_client(client));
                }
            }
        } else {
            if now.has_client(client) {
                lemma_no_one_joins_unadmitted(before, event, client);
                lemma_updates_lead_to_next_state(before, event);
                lemma_mirrored_updates(held, before.updates(event));
                assert forall|i: int| 2 <= i < all.len() implies (#[trigger] all[i])
                    is UpdateState by {
                    if i >= held.len() {
                        assert(all[i] == added[i - held.len()]);
                    } else {
                        assert(all[i] == held[i]);
                    }
                }
                assert(all[0] == held[0]);
                assert(all[1] == held[1]);
            } else {
                assert(all =~= held);
            }
            if client >= now.next_client {
                assert(!now.has_client(client));
            }
        }
    }
}

/// How many connections are handed in among `events`.
pub open spec fn connections(events: Seq<Event>) -> nat
    decreases events.len(),
{
    if events.len() == 0 {
        0
    } else if events.last() is NewConnection {
        connections(events.drop_last()) + 1
    } else {
        connections(events.drop_last())
    }
}

/// Roles go by the order of joining.
///
/// Let a new session handle any events among which no client leaves. Then
/// it has one client for each connection handed in, in the order of joining;
/// the first controls the hoop, the second a ball that the game has, and all
/// others observe, whatever else was handled in between. And each of them
/// was sent the whole state first and then exactly that role.
pub proof fn lemma_roles_go_by_join_order(id: u32, events: Seq<Event>)
    requires
        forall|i: int| 0 <= i < events.len() ==> !is_departure(#[trigger] events[i]),
        connections(events) <= u64::MAX,
    ensures
        HostView::initial(id).run(events).clients.len() == connections(events),
        forall|k: int|
            0 <= k < connections(events) ==> #[trigger] HostView::initial(id).run(
                events,
            ).clients[k] == (Client { id: k as u64, role: role_at(k as nat) }),
        forall|k: int|
            0 <= k < connections(events) ==> {
                let messages = #[trigger] inbox(HostView::initial(id).sent(events), k as u64);
                &&& messages.len() >= 2
                &&& messages[0] is InitialState
                &&& messages[1] == establishing(role_at(k as nat))
            },
        connections(events) > 1 ==> HostView::initial(id).run(
            events,
        ).game.state.ball_positions.contains_key(SINGLE_BALL_ID),
        !HostView::initial(id).run(events).ended,
        HostView::initial(id).run(events).next_client == connections(events),
    decreases events.len(),
{
    let host = HostView::initial(id);
    assert(host.wf()) by {
        assert(seq![SINGLE_BALL_ID][0] == SINGLE_BALL_ID);
    }
    lemma_run_keeps_well_formed(host, events);
    if events.len() > 0 {
        let earlier = events.drop_last();
        let event = events.last();
        let before = host.run(earlier);
        let now = host.run(events);
        assert forall|i: int| 0 <= i < earlier.len() implies !is_departure(
            #[trigger] earlier[i],
        ) by {
            assert(earlier[i] == events[i]);
        }
        assert(!is_departure(events[events.len() - 1]));
        lemma_roles_go_by_join_order(id, earlier);
        lemma_run_keeps_well_formed(host, earlier);
        assert forall|k: int| 0 <= k < connections(events) implies {
            let messages = #[trigger] inbox(host.sent(events), k as u64);
            &&& messages.len() >= 2
            &&& messages[0] is InitialState
            &&& messages[1] == establishing(role_at(k as nat))
        } by {
            let held = inbox(host.sent(earlier), k as u64);
            let added = inbox(before.deliveries(event), k as u64);
            lemma_inbox_concat(host.sent(earlier), before.deliveries(event), k as u64);
            lemma_inbox_of_one_event(before, event, k as u64);
            if k < connections(earlier) {
                assert((held + added)[0] == held[0]);
                assert((held + added)[1] == held[1]);
            } else {
                lemma_snapshot_comes_first(host, earlier, k as u64);
                assert(held + added =~= added);
            }
        }
    }
}

/// A failure of one client spares the others.
///
/// When a client is lost, every other client stays connected in its role
/// and the game is untouched. And for whatever the session handles next that
/// does not stem from the lost client, every other client is sent exactly
/// what it would have been sent had the failure not happened, the game goes
/// on in the same way, and the same clients besides the lost one remain.
pub proof fn lemma_failure_spares_the_others(
    host: HostView,
    failed: u64,
    other: u64,
    event: Event,
)
    requires
        host.wf(),
        !host.ended,
        host.has_client(failed),
        host.has_client(other),
        failed != other,
        !concerns(event, failed),
    ensures
        !host.without(failed).ended,
        host.without(failed).game == host.game,
        host.without(failed).has_client(other),
        host.without(failed).clients[host.without(failed).position_of(other)]
            == host.clients[host.position_of(other)],
        inbox(host.without(failed).deliveries(event), other) == inbox(
            host.deliveries(event),
            other,
        ),
        host.without(failed).after(event).game == host.after(event).game,
        host.without(failed).after(event).has_client(other) == host.after(event).has_client(
            other,
        ),
{
    let rest = host.without(failed);
    lemma_without_spares_the_others(host, failed, other);
    lemma_without_keeps_well_formed(host, failed);
    lemma_inbox_of_one_event(host, event, other);
    lemma_inbox_of_one_event(rest, event, other);
    assert(rest.clients.len() > 0);
    assert(other < host.next_client) by {
        let k = host.position_of(other);
        assert(host.clients[k].id < host.next_client);
    }
    match event {
        Event::NewConnection => {
            lemma_joining_keeps_the_others(host, other);
            lemma_joining_keeps_the_others(rest, other);
        },
        Event::HandoffClosed => {
            assert(!host.after(event).has_client(other));
            assert(!rest.after(event).has_client(other));
        },
        Event::ClientRead { client: from, result } => {
            lemma_without_spares_the_others(host, failed, from);
            if host.has_client(from) {
                if is_departure(event) {
                    lemma_departure_of_another(host, failed, other, from);
                }
            }
        },
        Event::Tick { elapsed } => {},
        Event::WriteFailed { client: to } => {
            lemma_without_spares_the_others(host, failed, to);
            if host.has_client(to) {
                lemma_departure_of_another(host, failed, other, to);
            }
        },
    }
}

proof fn lemma_joining_keeps_the_others(host: HostView, other: u64)
    requires
        host.has_client(other),
    ensures
        host.joined().has_client(other),
{
    let k = host.position_of(other);
    assert(host.joined().clients[k].id == other);
}

proof fn lemma_departure_of_another(host: HostView, failed: u64, other: u64, leaving: u64)
    requires
        host.wf(),
        !host.ended,
        host.has_client(failed),
        host.has_client(other),
        host.has_client(leaving),
        failed != other,
        failed != leaving,
    ensures
        host.without(failed).without(leaving).has_client(other) == host.without(
            leaving,
        ).has_client(other),
{
    let rest = host.without(failed);
    lemma_without_spares_the_others(host, failed, other);
    lemma_without_spares_the_others(host, failed, leaving);
    lemma_without_keeps_well_formed(host, failed);
    assert(rest.clients.len() > 0);
    if leaving == other {
        lemma_without_drops(host, leaving);
        lemma_without_drops(rest, leaving);
    } else {
        lemma_without_spares_the_others(host, leaving, other);
        lemma_without_spares_the_others(rest, leaving, other);
    }
}

} // verus!
