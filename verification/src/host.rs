//! The host of one game session.
//!
//! A session reacts to events: a connection that is handed in, something read
//! from a client, the tick of the frame timer, a write that failed. Handling
//! an event changes the game and the set of clients, and yields the messages
//! to deliver, each with the client it is for. Waiting for events and writing
//! messages to sockets is the caller's part.

use crate::fixed::Fixed;
use crate::message::{ToClientMessage, ToClientMessageView, ToServerMessage};
use crate::sim::{Game, GameView, SINGLE_BALL_ID};
use crate::state::{GameState, UpdateState};
use vstd::prelude::*;

verus! {

/// Nominal time between two ticks, in milliseconds.
pub const FRAME_MILLIS: u64 = 16;

/// What a client may do in the game.
#[derive(Clone, Copy, Debug, PartialEq, Eq, Structural)]
pub enum Role {
    Hoop,
    Ball { id: u32 },
    Observer,
}

/// One connected client.
#[derive(Clone, Copy, Debug, PartialEq, Eq, Structural)]
pub struct Client {
    pub id: u64,
    pub role: Role,
}

/// Why nothing more can be read from a client.
#[derive(Clone, Copy, Debug, PartialEq, Eq, Structural)]
pub enum ClientError {
    /// The client closed the connection.
    Closed,
    /// Reading or decoding failed.
    Read,
}

/// What a session reacts to.
#[derive(Clone, Copy, Debug, PartialEq)]
pub enum Event {
    /// A connection was handed in.
    NewConnection,
    /// No connection will ever be handed in again.
    HandoffClosed,
    /// Something was read from a client, or reading failed.
    ClientRead { client: u64, result: Result<ToServerMessage, ClientError> },
    /// The frame timer fired, `elapsed` seconds after it last did.
    Tick { elapsed: Fixed },
    /// A message could not be written to a client.
    WriteFailed { client: u64 },
}

/// A message and the client it is for.
#[derive(Debug, PartialEq)]
pub struct Delivery {
    pub client: u64,
    pub message: ToClientMessage,
}

/// The mathematical content of a [`Delivery`].
pub struct DeliveryView {
    pub client: u64,
    pub message: ToClientMessageView,
}

impl View for Delivery {
    type V = DeliveryView;

    open spec fn view(&self) -> DeliveryView {
        DeliveryView { client: self.client, message: self.message@ }
    }
}

/// What handling one event yields.
#[derive(Debug, PartialEq)]
pub struct Outcome {
    /// The messages to write, in this order.
    pub deliveries: Vec<Delivery>,
    /// The client that joined, if one did.
    pub admitted: Option<Client>,
}

/// The role of a client that joins as the `position`-th (counting from zero)
/// of the clients then connected.
pub open spec fn role_at(position: nat) -> Role {
    if position == 0 {
        Role::Hoop
    } else if position == 1 {
        Role::Ball { id: SINGLE_BALL_ID }
    } else {
        Role::Observer
    }
}

/// The message that tells a client its role.
pub open spec fn establishing(role: Role) -> ToClientMessageView {
    match role {
        Role::Hoop => ToClientMessageView::EstablishAsHoop,
        Role::Ball { id } => ToClientMessageView::EstablishAsBall { id },
        Role::Observer => ToClientMessageView::EstablishAsObserver,
    }
}

/// Wraps each update into the message that carries it.
pub open spec fn update_messages(updates: Seq<UpdateState>) -> Seq<ToClientMessageView> {
    updates.map_values(|update: UpdateState| ToClientMessageView::UpdateState(update))
}

/// One message for every client, in the order of the clients.
pub open spec fn fan_out_one(clients: Seq<Client>, message: ToClientMessageView) -> Seq<
    DeliveryView,
> {
    clients.map_values(|client: Client| DeliveryView { client: client.id, message })
}

/// Every message for every client: message by message in the order given,
/// and each message client by client.
pub open spec fn fan_out(clients: Seq<Client>, messages: Seq<ToClientMessageView>) -> Seq<
    DeliveryView,
>
    decreases messages.len(),
{
    if messages.len() == 0 {
        Seq::empty()
    } else {
        fan_out(clients, messages.drop_last()) + fan_out_one(clients, messages.last())
    }
}

/// The mathematical content of each delivery.
pub open spec fn delivery_views(deliveries: Seq<Delivery>) -> Seq<DeliveryView> {
    deliveries.map_values(|delivery: Delivery| delivery@)
}

/// The mathematical content of each message.
pub open spec fn message_views(messages: Seq<ToClientMessage>) -> Seq<ToClientMessageView> {
    messages.map_values(|message: ToClientMessage| message@)
}

/// The mathematical content of a [`GameHost`].
pub struct HostView {
    pub id: u32,
    pub game: GameView,
    /// The connected clients, in the order in which they joined.
    pub clients: Seq<Client>,
    /// The identifier that the next client gets.
    pub next_client: u64,
    pub ended: bool,
}

impl HostView {
    /// The game is well formed and has the ball that a ball controller is
    /// bound to; the clients' identifiers ascend and lie below the next one;
    /// a session that has ended has no clients.
    pub open spec fn wf(self) -> bool {
        &&& self.game.wf()
        &&& self.game.state.ball_positions.contains_key(SINGLE_BALL_ID)
        &&& forall|i: int, j: int|
            0 <= i < j < self.clients.len() ==> self.clients[i].id < self.clients[j].id
        &&& forall|i: int| 0 <= i < self.clients.len() ==> self.clients[i].id < self.next_client
        &&& self.ended ==> self.clients.len() == 0
    }

    /// A session that has just been created.
    pub open spec fn initial(id: u32) -> HostView {
        HostView {
            id,
            game: GameView::initial(),
            clients: Seq::empty(),
            next_client: 0,
            ended: false,
        }
    }

    /// A client with this identifier is connected.
    pub open spec fn has_client(self, client: u64) -> bool {
        exists|i: int| 0 <= i < self.clients.len() && self.clients[i].id == client
    }

    /// Where the client with this identifier stands among the clients.
    pub open spec fn position_of(self, client: u64) -> int {
        choose|i: int| 0 <= i < self.clients.len() && self.clients[i].id == client
    }

    /// A connection can be admitted: the session runs and has an identifier
    /// left to give.
    pub open spec fn admits(self) -> bool {
        !self.ended && self.next_client < u64::MAX
    }

    /// The client that a connection handed in now becomes.
    pub open spec fn newcomer(self) -> Client {
        Client { id: self.next_client, role: role_at(self.clients.len()) }
    }

    /// The session after a connection was handed in.
    pub open spec fn joined(self) -> HostView {
        if self.admits() {
            HostView {
                clients: self.clients.push(self.newcomer()),
                next_client: (self.next_client + 1) as u64,
                ..self
            }
        } else {
            self
        }
    }

    /// What a joining client is sent: the whole state, then its role.
    pub open spec fn greeting(self) -> Seq<DeliveryView> {
        seq![
            DeliveryView {
                client: self.next_client,
                message: ToClientMessageView::InitialState(self.game.state),
            },
            DeliveryView {
                client: self.next_client,
                message: establishing(self.newcomer().role),
            },
        ]
    }

    /// The session without the client of this identifier. The other clients
    /// stay, in their order, with their roles; the session ends when its
    /// last client leaves.
    pub open spec fn without(self, client: u64) -> HostView {
        if !self.ended && self.has_client(client) {
            let remaining = self.clients.remove(self.position_of(client));
            HostView { clients: remaining, ended: remaining.len() == 0, ..self }
        } else {
            self
        }
    }

    /// The session after handling `event`. A session that has ended stays as
    /// it is, and so does one that hears of a client it does not have.
    pub open spec fn after(self, event: Event) -> HostView {
        if self.ended {
            self
        } else {
            match event {
                Event::NewConnection => self.joined(),
                Event::HandoffClosed => HostView { clients: Seq::empty(), ended: true, ..self },
                Event::ClientRead { client, result } => if !self.has_client(client) {
                    self
                } else {
                    match result {
                        Ok(ToServerMessage::MoveHoop { direction, seconds_pressed }) => HostView {
                            game: self.game.hoop_moved(direction, seconds_pressed),
                            ..self
                        },
                        Ok(ToServerMessage::ShootBall { id, angle, seconds_pressed }) => HostView {
                            game: self.game.ball_shot(id, angle, seconds_pressed),
                            ..self
                        },
                        Ok(ToServerMessage::Hello { .. }) => self.without(client),
                        Err(_) => self.without(client),
                    }
                },
                Event::Tick { elapsed } => HostView { game: self.game.ticked(elapsed), ..self },
                Event::WriteFailed { client } => self.without(client),
            }
        }
    }

    /// The updates that handling `event` gives rise to.
    pub open spec fn updates(self, event: Event) -> Seq<UpdateState> {
        if self.ended {
            Seq::empty()
        } else {
            match event {
                Event::ClientRead {
                    client,
                    result: Ok(ToServerMessage::MoveHoop { direction, seconds_pressed }),
                } => if self.has_client(client) {
                    seq![
                        UpdateState::MoveHoop {
                            x: self.game.hoop_moved(direction, seconds_pressed).state.hoop_x,
                        },
                    ]
                } else {
                    Seq::empty()
                },
                Event::Tick { elapsed } => self.game.tick_updates(elapsed),
                _ => Seq::empty(),
            }
        }
    }

    /// The client that joins when `event` is handled.
    pub open spec fn admitted(self, event: Event) -> Option<Client> {
        if event is NewConnection && self.admits() {
            Some(self.newcomer())
        } else {
            None
        }
    }

    /// The messages to deliver when `event` is handled: the greeting of a
    /// client that joins, and every update for every client then connected.
    pub open spec fn deliveries(self, event: Event) -> Seq<DeliveryView> {
        if event is NewConnection && self.admits() {
            self.greeting()
        } else {
            fan_out(self.after(event).clients, update_messages(self.updates(event)))
        }
    }
}

/// The host of one game session: the game, and the clients that take part.
pub struct GameHost {
    id: u32,
    game: Game,
    clients: Vec<Client>,
    next_client: u64,
    ended: bool,
}

impl View for GameHost {
    type V = HostView;

    closed spec fn view(&self) -> HostView {
        HostView {
            id: self.id,
            game: self.game@,
            clients: self.clients@,
            next_client: self.next_client,
            ended: self.ended,
        }
    }
}

/// What the loop is told of one read from a client: a stream that has come
/// to its end counts as a failure of its own kind.
pub fn read_one_client_message(
    client: u64,
    next: Option<Result<ToServerMessage, ClientError>>,
) -> (event: Event)
    ensures
        event == (Event::ClientRead {
            client,
            result: match next {
                Some(result) => result,
                None => Err(ClientError::Closed),
            },
        }),
{
    let result = match next {
        Some(result) => result,
        None => Err(ClientError::Closed),
    };
    Event::ClientRead { client, result }
}

/// The message that tells a client its role.
pub fn establish_message(role: Role) -> (message: ToClientMessage)
    ensures
        message@ == establishing(role),
{
    match role {
        Role::Hoop => ToClientMessage::EstablishAsHoop,
        Role::Ball { id } => ToClientMessage::EstablishAsBall { id },
        Role::Observer => ToClientMessage::EstablishAsObserver,
    }
}

proof fn lemma_delivery_views_push(deliveries: Seq<Delivery>, delivery: Delivery)
    ensures
        delivery_views(deliveries.push(delivery)) == delivery_views(deliveries).push(delivery@),
{
    assert(delivery_views(deliveries.push(delivery)) =~= delivery_views(deliveries).push(
        delivery@,
    ));
}

/// Pairs every message with every client: message by message, and each
/// message client by client.
fn fan_out_to(clients: &Vec<Client>, messages: &Vec<ToClientMessage>) -> (deliveries: Vec<
    Delivery,
>)
    ensures
        delivery_views(deliveries@) == fan_out(clients@, message_views(messages@)),
{
    let mut deliveries: Vec<Delivery> = Vec::new();
    let ghost views = message_views(messages@);
    let mut i: usize = 0;
    assert(delivery_views(deliveries@) =~= fan_out(clients@, views.take(0)));
    while i < messages.len()
        invariant
            i <= messages.len(),
            views == message_views(messages@),
            delivery_views(deliveries@) == fan_out(clients@, views.take(i as int)),
        decreases messages.len() - i,
    {
        let ghost done = fan_out(clients@, views.take(i as int));
        let mut j: usize = 0;
        assert(fan_out_one(clients@.take(0), views[i as int]) =~= Seq::empty());
        assert(done + Seq::<DeliveryView>::empty() =~= done);
        while j < clients.len()
            invariant
                i < messages.len(),
                j <= clients.len(),
                views == message_views(messages@),
                done == fan_out(clients@, views.take(i as int)),
                delivery_views(deliveries@) == done + fan_out_one(
                    clients@.take(j as int),
                    views[i as int],
                ),
            decreases clients.len() - j,
        {
            let delivery = Delivery { client: clients[j].id, message: messages[i].clone() };
            proof {
                lemma_delivery_views_push(deliveries@, delivery);
                assert(fan_out_one(clients@.take(j + 1), views[i as int]) =~= fan_out_one(
                    clients@.take(j as int),
                    views[i as int],
                ).push(delivery@));
                assert(done + fan_out_one(clients@.take(j as int), views[i as int]).push(
                    delivery@,
                ) =~= (done + fan_out_one(clients@.take(j as int), views[i as int])).push(
                    delivery@,
                ));
            }
            deliveries.push(delivery);
            j = j + 1;
        }
        proof {
            assert(clients@.take(clients.len() as int) =~= clients@);
            assert(views.take(i + 1).drop_last() =~= views.take(i as int));
            assert(views.take(i + 1).last() == views[i as int]);
        }
        i = i + 1;
    }
    assert(views.take(messages.len() as int) =~= views);
    deliveries
}

impl GameHost {
    /// A session with a fresh game and no clients.
    pub fn new(id: u32) -> (host: GameHost)
        ensures
            host@ == HostView::initial(id),
            host@.wf(),
    {
        GameHost { id, game: Game::default(), clients: Vec::new(), next_client: 0, ended: false }
    }

    /// The identifier of the session once it has ended, and `None` while it
    /// runs.
    pub fn await_end(&self) -> (end: Option<u32>)
        ensures
            end == (if self@.ended {
                Some(self@.id)
            } else {
                None
            }),
    {
        if self.ended {
            Some(self.id)
        } else {
            None
        }
    }

    /// The identifier of the session.
    pub fn id(&self) -> (id: u32)
        ensures
            id == self@.id,
    {
        self.id
    }

    /// What the clients see of the game.
    pub fn state(&self) -> (state: &GameState)
        ensures
            state@ == self@.game.state,
    {
        self.game.state()
    }

    /// The connected clients, in the order in which they joined.
    pub fn clients(&self) -> (clients: &Vec<Client>)
        ensures
            clients@ == self@.clients,
    {
        &self.clients
    }

    /// Whether a client of this identifier is connected.
    pub fn is_connected(&self, client: u64) -> (connected: bool)
        requires
            self@.wf(),
        ensures
            connected == self@.has_client(client),
    {
        self.find_client(client).is_some()
    }

    /// Where the client of this identifier stands among the clients.
    fn find_client(&self, client: u64) -> (found: Option<usize>)
        requires
            self@.wf(),
        ensures
            found is Some <==> self@.has_client(client),
            found is Some ==> found->0 as int == self@.position_of(client),
    {
        let mut index: usize = 0;
        while index < self.clients.len()
            invariant
                self@.wf(),
                index <= self.clients.len(),
                forall|k: int| 0 <= k < index ==> self.clients@[k].id != client,
            decreases self.clients.len() - index,
        {
            if self.clients[index].id == client {
                proof {
                    let chosen = self@.position_of(client);
                    assert(0 <= index < self@.clients.len() && self@.clients[index as int].id
                        == client);
                    assert(0 <= chosen < self@.clients.len() && self@.clients[chosen].id
                        == client);
                    assert(chosen == index) by {
                        if chosen < index {
                            assert(self@.clients[chosen].id < self@.clients[index as int].id);
                        }
                        if chosen > index {
                            assert(self@.clients[index as int].id < self@.clients[chosen].id);
                        }
                    }
                }
                return Some(index);
            }
            index = index + 1;
        }
        None
    }

    /// Takes the client of this identifier out of the session.
    fn remove_client(&mut self, client: u64)
        requires
            old(self)@.wf(),
        ensures
            final(self)@ == old(self)@.without(client),
            final(self)@.wf(),
    {
        if self.ended {
            return ;
        }
        match self.find_client(client) {
            Some(index) => {
                let _client = self.clients.remove(index);
                if self.clients.len() == 0 {
                    self.ended = true;
                }
            },
            None => {},
        }
    }

    /// Admits a connection that was handed in. The newcomer is sent the
    /// whole state and then its role, which goes by the number of clients
    /// connected before it: the first controls the hoop, the second the
    /// ball, the others observe.
    pub fn new_client(&mut self) -> (outcome: Outcome)
        requires
            old(self)@.wf(),
        ensures
            final(self)@ == old(self)@.joined(),
            final(self)@.wf(),
            outcome.admitted == old(self)@.admitted(Event::NewConnection),
            delivery_views(outcome.deliveries@) == old(self)@.deliveries(Event::NewConnection),
    {
        let mut deliveries: Vec<Delivery> = Vec::new();
        if self.ended || self.next_client == u64::MAX {
            proof {
                assert(delivery_views(deliveries@) =~= Seq::empty());
                assert(update_messages(old(self)@.updates(Event::NewConnection)) =~= Seq::empty());
            }
            return Outcome { deliveries, admitted: None };
        }
        let role = if self.clients.len() == 0 {
            Role::Hoop
        } else if self.clients.len() == 1 {
            Role::Ball { id: SINGLE_BALL_ID }
        } else {
            Role::Observer
        };
        let newcomer = Client { id: self.next_client, role };
        let first = Delivery {
            client: newcomer.id,
            message: ToClientMessage::InitialState(self.game.state().clone()),
        };
        let second = Delivery { client: newcomer.id, message: establish_message(role) };
        proof {
            lemma_delivery_views_push(deliveries@, first);
            lemma_delivery_views_push(deliveries@.push(first), second);
            assert(delivery_views(deliveries@) =~= Seq::empty());
            assert(Seq::<DeliveryView>::empty().push(first@).push(second@) =~= old(
                self,
            )@.greeting());
        }
        deliveries.push(first);
        deliveries.push(second);
        self.clients.push(newcomer);
        self.next_client = self.next_client + 1;
        Outcome { deliveries, admitted: Some(newcomer) }
    }

    /// Handles one event: changes the game and the set of clients as the
    /// event asks, and yields what is to be delivered for it.
    pub fn handle(&mut self, event: Event) -> (outcome: Outcome)
        requires
            old(self)@.wf(),
        ensures
            final(self)@ == old(self)@.after(event),
            final(self)@.wf(),
            outcome.admitted == old(self)@.admitted(event),
            delivery_views(outcome.deliveries@) == old(self)@.deliveries(event),
    {
        let mut updates: Vec<ToClientMessage> = Vec::new();
        assert(message_views(updates@) =~= Seq::empty());
        if !self.ended {
            match event {
                Event::NewConnection => {
                    return self.new_client();
                },
                Event::HandoffClosed => {
                    self.clients.clear();
                    self.ended = true;
                },
                Event::ClientRead { client, result } => {
                    if self.find_client(client).is_some() {
                        match result {
                            Ok(ToServerMessage::MoveHoop { direction, seconds_pressed }) => {
                                self.game.move_hoop(direction, seconds_pressed);
                                updates.push(
                                    ToClientMessage::UpdateState(
                                        UpdateState::MoveHoop { x: self.game.state().hoop_x },
                                    ),
                                );
                            },
                            Ok(ToServerMessage::ShootBall { id, angle, seconds_pressed }) => {
                                self.game.shoot_ball(id, angle, seconds_pressed);
                            },
                            Ok(ToServerMessage::Hello { .. }) => {
                                self.remove_client(client);
                            },
                            Err(_) => {
                                self.remove_client(client);
                            },
                        }
                    }
                },
                Event::Tick { elapsed } => {
                    self.game.update(elapsed, &mut updates);
                },
                Event::WriteFailed { client } => {
                    self.remove_client(client);
                },
            }
        }
        proof {
            assert(message_views(updates@) =~= update_messages(old(self)@.updates(event)));
        }
        let deliveries = fan_out_to(&self.clients, &updates);
        Outcome { deliveries, admitted: None }
    }
}

} // verus!
