//! What a socket worker of the WebSocket protocol decides: which token a
//! new stream gets, what a connection does next on its way from a TCP
//! stream to an established WebSocket, and when a connection is given up.
//!
//! The streams themselves are not here. The worker keeps them by token and
//! does what this table tells it.

use crate::peer::PeerAddress;
use crate::token_map::TokenMap;
use vstd::prelude::*;

verus! {

/// How far a connection has come.
#[derive(Clone, Copy, Debug, PartialEq, Eq, Structural)]
pub enum Stage {
    /// The TCP stream was accepted.
    Accepted,
    /// The TLS handshake has begun and waits for the peer.
    TlsHandshake,
    /// The TLS handshake is done.
    Secured,
    /// The WebSocket handshake has begun and waits for the peer.
    WsHandshake,
    /// Messages can be read and written.
    Established,
}

/// What the tracker knows of a connection.
#[derive(Clone, Copy, Debug, PartialEq, Eq)]
pub struct Connection {
    pub stage: Stage,
    /// The time after which the connection counts as silent.
    pub valid_until: u64,
    /// Where the stream came from.
    pub peer_addr: PeerAddress,
}

/// What the worker is to try on a stream.
#[derive(Clone, Copy, Debug, PartialEq, Eq)]
pub enum HandshakeStep {
    /// Begin the TLS handshake.
    AcceptTls,
    /// Go on with the TLS handshake.
    ResumeTls,
    /// Begin the WebSocket handshake.
    AcceptWebSocket,
    /// Go on with the WebSocket handshake.
    ResumeWebSocket,
}

/// How an attempt on a stream ended.
#[derive(Clone, Copy, Debug, PartialEq, Eq, Structural)]
pub enum IoOutcome {
    /// It was carried out.
    Done,
    /// The stream is not ready: try again when it is.
    WouldBlock,
    /// The stream is of no use any more.
    Failed,
}

/// What the worker is to do for a token that is ready to be read.
#[derive(Clone, Copy, Debug, PartialEq, Eq)]
pub enum ReadStep {
    /// Read a message.
    ReadMessage,
    /// Take the handshake one step further.
    Handshake(HandshakeStep),
    /// There is no such connection: turn to the next token.
    Stop,
}

/// What is to be done with a message for a connection.
#[derive(Clone, Copy, Debug, PartialEq, Eq)]
pub enum OutRoute {
    /// Write it to the stream.
    Write,
    /// The connection with this token is not the one the message is for.
    AddressMismatch,
    /// There is no established connection with this token.
    NoConnection,
}

/// What [`ConnectionTable::accept`] did.
#[derive(Clone, Copy, Debug, PartialEq, Eq)]
pub struct Accepted {
    /// The token of the new connection.
    pub token: usize,
    /// Whether an older connection had this token and was given up for it.
    pub evicted: bool,
}

/// The token after `counter`: one more, but never zero, which stands for the
/// listener. After the largest token comes 1.
pub open spec fn next_token(counter: usize) -> usize {
    if counter == usize::MAX {
        1
    } else {
        (counter + 1) as usize
    }
}

/// What the worker is to try on a stream at a stage that is not yet
/// established.
pub open spec fn handshake_step(stage: Stage, use_tls: bool) -> HandshakeStep {
    match stage {
        Stage::Accepted => if use_tls {
            HandshakeStep::AcceptTls
        } else {
            HandshakeStep::AcceptWebSocket
        },
        Stage::TlsHandshake => HandshakeStep::ResumeTls,
        Stage::Secured => HandshakeStep::AcceptWebSocket,
        _ => HandshakeStep::ResumeWebSocket,
    }
}

/// The stage after a step of the handshake, or `None` if the connection is
/// given up.
pub open spec fn stage_after(stage: Stage, use_tls: bool, outcome: IoOutcome) -> Option<Stage> {
    let tls = match handshake_step(stage, use_tls) {
        HandshakeStep::AcceptTls => true,
        HandshakeStep::ResumeTls => true,
        _ => false,
    };
    match outcome {
        IoOutcome::Failed => None,
        IoOutcome::Done => if tls {
            Some(Stage::Secured)
        } else {
            Some(Stage::Established)
        },
        IoOutcome::WouldBlock => if tls {
            Some(Stage::TlsHandshake)
        } else {
            Some(Stage::WsHandshake)
        },
    }
}

/// The time until which a connection that was heard at `now` counts as
/// alive, or the largest time there is if that cannot be told.
pub fn connection_valid_until(now: u64, max_connection_age: u64) -> (until: u64)
    ensures
        until == if now + max_connection_age <= u64::MAX {
            (now + max_connection_age) as u64
        } else {
            u64::MAX
        },
{
    match now.checked_add(max_connection_age) {
        Some(until) => until,
        None => u64::MAX,
    }
}

/// Whether the worker looks for silent connections in this round of its
/// loop: in every 128th.
pub fn cleaning_due(iteration: usize) -> (due: bool)
    ensures
        due == (iteration % 128 == 0),
{
    iteration % 128 == 0
}

/// The connections of one socket worker, by token.
pub struct ConnectionTable {
    connections: TokenMap<Connection>,
    counter: usize,
}

impl View for ConnectionTable {
    type V = Map<usize, Connection>;

    closed spec fn view(&self) -> Map<usize, Connection> {
        self.connections.as_map()
    }
}

impl ConnectionTable {
    /// The token that was given out last.
    pub closed spec fn counter(&self) -> usize {
        self.counter
    }

    /// The connections can be found by their tokens, and none has the token
    /// of the listener.
    pub closed spec fn wf(&self) -> bool {
        self.connections.wf() && !self.connections.as_map().contains_key(0)
    }

    /// In a well-formed table no connection has the token zero.
    pub proof fn lemma_wf(&self)
        requires
            self.wf(),
        ensures
            !self@.contains_key(0),
    {
    }

    /// A table without connections.
    pub fn new() -> (table: ConnectionTable)
        ensures
            table.wf(),
            table@ == Map::<usize, Connection>::empty(),
            table.counter() == 0,
    {
        ConnectionTable { connections: TokenMap::new(), counter: 0 }
    }

    /// Takes a new stream into the table and gives it the next token. A
    /// connection that still has this token is given up.
    pub fn accept(&mut self, valid_until: u64, peer_addr: PeerAddress) -> (accepted: Accepted)
        requires
            old(self).wf(),
        ensures
            final(self).wf(),
            accepted.token == next_token(old(self).counter()),
            accepted.token != 0,
            accepted.evicted == old(self)@.contains_key(accepted.token),
            final(self).counter() == accepted.token,
            final(self)@ == old(self)@.insert(
                accepted.token,
                (Connection { stage: Stage::Accepted, valid_until, peer_addr }),
            ),
    {
        let token = if self.counter == usize::MAX {
            1
        } else {
            self.counter + 1
        };
        self.counter = token;
        let evicted = self.remove(token);
        proof {
            self.connections.lemma_wf();
            assert(!self@.contains_key(token));
            assert(!self.connections.keys().contains(token));
        }
        self.connections.push(token, Connection { stage: Stage::Accepted, valid_until, peer_addr });
        assert(self@ =~= old(self)@.insert(
            token,
            (Connection { stage: Stage::Accepted, valid_until, peer_addr }),
        ));
        Accepted { token, evicted }
    }

    /// Gives up the connection with this token, if there is one, and tells
    /// whether there was.
    pub fn remove(&mut self, token: usize) -> (removed: bool)
        requires
            old(self).wf(),
        ensures
            final(self).wf(),
            final(self).counter() == old(self).counter(),
            removed == old(self)@.contains_key(token),
            final(self)@ == old(self)@.remove(token),
    {
        proof {
            self.connections.lemma_wf();
        }
        match self.connections.position(token) {
            Some(place) => {
                proof {
                    self.connections.lemma_entry(place as int);
                }
                let _ = self.connections.swap_remove(place);
                true
            },
            None => {
                assert(self@ =~= old(self)@.remove(token));
                false
            },
        }
    }

    /// What is known of the connection with this token.
    pub fn get(&self, token: usize) -> (connection: Option<Connection>)
        requires
            self.wf(),
        ensures
            match connection {
                Some(known) => self@.contains_key(token) && self@[token] == known,
                None => !self@.contains_key(token),
            },
    {
        proof {
            self.connections.lemma_wf();
        }
        match self.connections.position(token) {
            Some(place) => {
                proof {
                    self.connections.lemma_entry(place as int);
                }
                Some(*self.connections.value(place))
            },
            None => None,
        }
    }

    /// Puts `connection` in place of what was known under a token that the
    /// table holds.
    fn replace(&mut self, token: usize, connection: Connection)
        requires
            old(self).wf(),
            old(self)@.contains_key(token),
        ensures
            final(self).wf(),
            final(self).counter() == old(self).counter(),
            final(self)@ == old(self)@.insert(token, connection),
    {
        proof {
            self.connections.lemma_wf();
        }
        match self.connections.position(token) {
            Some(place) => {
                let ghost before = self.connections;
                *self.connections.value_mut(place) = connection;
                proof {
                    before.lemma_value_changed(&self.connections, place as int);
                }
            },
            None => {},
        }
    }

    /// What the worker is to do for a token that is ready to be read: read a
    /// message if the connection is established, take its handshake one step
    /// further if not, nothing if there is no such connection.
    pub fn read_step(&self, token: usize, use_tls: bool) -> (step: ReadStep)
        requires
            self.wf(),
        ensures
            step == if !self@.contains_key(token) {
                ReadStep::Stop
            } else if self@[token].stage is Established {
                ReadStep::ReadMessage
            } else {
                ReadStep::Handshake(handshake_step(self@[token].stage, use_tls))
            },
    {
        match self.get(token) {
            None => ReadStep::Stop,
            Some(connection) => match connection.stage {
                Stage::Established => ReadStep::ReadMessage,
                Stage::Accepted => if use_tls {
                    ReadStep::Handshake(HandshakeStep::AcceptTls)
                } else {
                    ReadStep::Handshake(HandshakeStep::AcceptWebSocket)
                },
                Stage::TlsHandshake => ReadStep::Handshake(HandshakeStep::ResumeTls),
                Stage::Secured => ReadStep::Handshake(HandshakeStep::AcceptWebSocket),
                Stage::WsHandshake => ReadStep::Handshake(HandshakeStep::ResumeWebSocket),
            },
        }
    }

    /// Records how a step of the handshake ended and tells whether the
    /// worker is to turn to the next token.
    ///
    /// A step that was carried out takes the connection to its next stage
    /// and the worker goes on with it. A step that would block leaves the
    /// connection in the middle of that handshake until its stream is ready
    /// again. A step that failed ends the connection. A connection that goes
    /// on is good until `valid_until`.
    pub fn handshake_advanced(
        &mut self,
        token: usize,
        use_tls: bool,
        outcome: IoOutcome,
        valid_until: u64,
    ) -> (stop: bool)
        requires
            old(self).wf(),
        ensures
            final(self).wf(),
            final(self).counter() == old(self).counter(),
            !old(self)@.contains_key(token) || old(self)@[token].stage is Established ==> stop
                && final(self)@ == old(self)@,
            old(self)@.contains_key(token) && !(old(self)@[token].stage is Established) ==> {
                &&& stop == !(outcome is Done)
                &&& final(self)@ == match stage_after(old(self)@[token].stage, use_tls, outcome) {
                    Some(stage) => old(self)@.insert(
                        token,
                        (Connection { stage, valid_until, peer_addr: old(self)@[token].peer_addr }),
                    ),
                    None => old(self)@.remove(token),
                }
            },
    {
        let connection = match self.get(token) {
            None => {
                return true;
            },
            Some(connection) => connection,
        };
        let tls = match connection.stage {
            Stage::Established => {
                return true;
            },
            Stage::Accepted => use_tls,
            Stage::TlsHandshake => true,
            Stage::Secured => false,
            Stage::WsHandshake => false,
        };
        match outcome {
            IoOutcome::Failed => {
                let _ = self.remove(token);
                true
            },
            IoOutcome::Done => {
                let stage = if tls {
                    Stage::Secured
                } else {
                    Stage::Established
                };
                self.replace(token, Connection { stage, valid_until, peer_addr: connection.peer_addr });
                false
            },
            IoOutcome::WouldBlock => {
                let stage = if tls {
                    Stage::TlsHandshake
                } else {
                    Stage::WsHandshake
                };
                self.replace(token, Connection { stage, valid_until, peer_addr: connection.peer_addr });
                true
            },
        }
    }

    /// Records how reading a message from an established connection ended
    /// and tells whether the worker is to turn to the next token.
    ///
    /// A message that was read makes the connection good until
    /// `valid_until`, and the worker reads on. A read that would block
    /// leaves everything as it is. A read that failed ends the connection.
    pub fn message_read(&mut self, token: usize, outcome: IoOutcome, valid_until: u64) -> (stop:
        bool)
        requires
            old(self).wf(),
        ensures
            final(self).wf(),
            final(self).counter() == old(self).counter(),
            stop == !(outcome is Done && old(self)@.contains_key(token)),
            final(self)@ == if !old(self)@.contains_key(token) {
                old(self)@
            } else {
                match outcome {
                    IoOutcome::Done => old(self)@.insert(
                        token,
                        (Connection {
                            stage: old(self)@[token].stage,
                            valid_until,
                            peer_addr: old(self)@[token].peer_addr,
                        }),
                    ),
                    IoOutcome::WouldBlock => old(self)@,
                    IoOutcome::Failed => old(self)@.remove(token),
                }
            },
    {
        let connection = match self.get(token) {
            None => {
                return true;
            },
            Some(connection) => connection,
        };
        match outcome {
            IoOutcome::Done => {
                self.replace(
                    token,
                    Connection {
                        stage: connection.stage,
                        valid_until,
                        peer_addr: connection.peer_addr,
                    },
                );
                false
            },
            IoOutcome::WouldBlock => true,
            IoOutcome::Failed => {
                let _ = self.remove(token);
                true
            },
        }
    }

    /// Whether a message for the connection with this token, made for a peer
    /// at `peer_addr`, is to be written: only to an established connection
    /// that comes from that address.
    pub fn route_out(&self, token: usize, peer_addr: &PeerAddress) -> (route: OutRoute)
        requires
            self.wf(),
        ensures
            route == if !self@.contains_key(token) || !(self@[token].stage is Established) {
                OutRoute::NoConnection
            } else if self@[token].peer_addr != *peer_addr {
                OutRoute::AddressMismatch
            } else {
                OutRoute::Write
            },
    {
        match self.get(token) {
            None => OutRoute::NoConnection,
            Some(connection) => match connection.stage {
                Stage::Established => if connection.peer_addr.same(peer_addr) {
                    OutRoute::Write
                } else {
                    OutRoute::AddressMismatch
                },
                _ => OutRoute::NoConnection,
            },
        }
    }

    /// Records how writing a message ended and tells whether the connection
    /// was given up: a write that failed ends it, any other leaves it.
    pub fn message_written(&mut self, token: usize, outcome: IoOutcome) -> (removed: bool)
        requires
            old(self).wf(),
        ensures
            final(self).wf(),
            final(self).counter() == old(self).counter(),
            removed == (outcome is Failed && old(self)@.contains_key(token)),
            final(self)@ == if outcome is Failed {
                old(self)@.remove(token)
            } else {
                old(self)@
            },
    {
        match outcome {
            IoOutcome::Failed => self.remove(token),
            _ => {
                assert(self@ =~= old(self)@);
                false
            },
        }
    }

    /// Gives up the connections whose `valid_until` lies before `now` and
    /// returns their tokens.
    pub fn remove_inactive(&mut self, now: u64) -> (evicted: Vec<usize>)
        requires
            old(self).wf(),
        ensures
            final(self).wf(),
            final(self).counter() == old(self).counter(),
            forall|token: usize| #[trigger]
                final(self)@.contains_key(token) <==> old(self)@.contains_key(token) && old(
                    self,
                )@[token].valid_until >= now,
            forall|token: usize| #[trigger]
                final(self)@.contains_key(token) ==> final(self)@[token] == old(self)@[token],
            forall|token: usize|
                evicted@.contains(token) <==> old(self)@.contains_key(token) && old(
                    self,
                )@[token].valid_until < now,
            evicted@.no_duplicates(),
    {
        let mut evicted: Vec<usize> = Vec::new();
        let mut i: usize = 0;
        proof {
            self.connections.lemma_wf();
        }
        while i < self.connections.len()
            invariant
                self.wf(),
                self.counter() == old(self).counter(),
                i <= self.connections.keys().len(),
                self.connections.keys().len() == self.connections.values().len(),
                forall|j: int|
                    0 <= j < i ==> (#[trigger] self.connections.values()[j]).valid_until >= now,
                forall|token: usize| #[trigger]
                    self@.contains_key(token) ==> old(self)@.contains_key(token) && self@[token]
                        == old(self)@[token],
                forall|token: usize|
                    old(self)@.contains_key(token) && old(self)@[token].valid_until >= now
                        ==> #[trigger] self@.contains_key(token),
                forall|token: usize|
                    evicted@.contains(token) ==> old(self)@.contains_key(token) && old(
                        self,
                    )@[token].valid_until < now,
                forall|token: usize|
                    old(self)@.contains_key(token) && !self@.contains_key(token)
                        ==> evicted@.contains(token),
                forall|k: int| 0 <= k < evicted@.len() ==> !self@.contains_key(#[trigger] evicted@[k]),
                evicted@.no_duplicates(),
            decreases self.connections.keys().len() - i,
        {
            let ghost before = self.connections;
            let ghost prior = self@;
            let ghost taken = evicted@;
            proof {
                before.lemma_entry(i as int);
            }
            if self.connections.value(i).valid_until < now {
                let token = self.connections.key(i);
                let _ = self.connections.swap_remove(i);
                evicted.push(token);
                proof {
                    self.connections.lemma_wf();
                    assert(prior.contains_key(token));
                    assert(prior[token].valid_until < now);
                    assert(old(self)@.contains_key(token) && old(self)@[token] == prior[token]);
                    assert(self@ == prior.remove(token));
                    assert forall|other: usize| #[trigger] self@.contains_key(other) implies old(
                        self,
                    )@.contains_key(other) && self@[other] == old(self)@[other] by {
                        assert(prior.contains_key(other));
                    }
                    assert forall|other: usize|
                        old(self)@.contains_key(other) && old(self)@[other].valid_until
                            >= now implies #[trigger] self@.contains_key(other) by {
                        assert(prior.contains_key(other));
                    }
                    assert forall|j: int| 0 <= j < i implies (
                    #[trigger] self.connections.values()[j]).valid_until >= now by {
                        assert(self.connections.values()[j] == before.values()[j]);
                    }
                    assert(evicted@[taken.len() as int] == token);
                    assert forall|k: int| 0 <= k < evicted@.len() implies !self@.contains_key(
                        #[trigger] evicted@[k],
                    ) by {
                        if k < taken.len() {
                            assert(evicted@[k] == taken[k]);
                            assert(!prior.contains_key(taken[k]));
                        }
                    }
                    assert forall|a: int, b: int|
                        0 <= a < evicted@.len() && 0 <= b < evicted@.len() && a
                            != b implies evicted@[a] != evicted@[b] by {
                        if a < taken.len() {
                            assert(evicted@[a] == taken[a]);
                            assert(!prior.contains_key(taken[a]));
                        }
                        if b < taken.len() {
                            assert(evicted@[b] == taken[b]);
                            assert(!prior.contains_key(taken[b]));
                        }
                    }
                    assert forall|other: usize| evicted@.contains(other) implies old(
                        self,
                    )@.contains_key(other) && old(self)@[other].valid_until < now by {
                        let k = choose|k: int| 0 <= k < evicted@.len() && evicted@[k] == other;
                        if k < taken.len() {
                            assert(taken[k] == other);
                            assert(taken.contains(other));
                        }
                    }
                    assert forall|other: usize|
                        old(self)@.contains_key(other) && !self@.contains_key(
                            other,
                        ) implies evicted@.contains(other) by {
                        if other != token {
                            assert(taken.contains(other));
                            let k = choose|k: int| 0 <= k < taken.len() && taken[k] == other;
                            assert(evicted@[k] == other);
                        }
                    }
                }
            } else {
                i += 1;
            }
        }
        proof {
            assert forall|token: usize| #[trigger] self@.contains_key(token) implies old(
                self,
            )@[token].valid_until >= now by {
                let j = self.connections.keys().index_of(token);
                self.connections.lemma_entry(j);
            }
        }
        evicted
    }
}

} // verus!
