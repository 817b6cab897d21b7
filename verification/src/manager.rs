//! The connection table: which connection a connection identifier names.
//!
//! The table maps a byte string, the identifier that a connection chose for
//! itself, to that connection.  It holds its entries in two vectors of equal
//! length in which no identifier occurs twice.

use crate::connection::{
    fresh_connection, Connection, ConnectionState, ConnectionView, PeerAddr,
};
use crate::handshake::TlsOutcomeView;
use crate::ingest::datagram_views;
use crate::packet::{decode_header, HeaderView, PacketHeader};
use crate::tls::TlsConfig;
use std::sync::Arc;
use vstd::prelude::*;

verus! {

/// Where `key` stands in `ids`, or -1 where it does not.
pub open spec fn position(ids: Seq<Vec<u8>>, key: Seq<u8>) -> int
    decreases ids.len(),
{
    if ids.len() == 0 {
        -1
    } else if ids.last()@ == key {
        ids.len() - 1
    } else {
        position(ids.drop_last(), key)
    }
}

/// Whether no identifier occurs twice in `ids`.
pub open spec fn distinct(ids: Seq<Vec<u8>>) -> bool {
    forall|i: int, j: int| 0 <= i < j < ids.len() ==> (#[trigger] ids[i])@ != (#[trigger] ids[j])@
}

/// `position` finds the one place where a key stands, and -1 only where it
/// stands nowhere.
proof fn lemma_position(ids: Seq<Vec<u8>>, key: Seq<u8>)
    ensures
        -1 <= position(ids, key) < ids.len(),
        position(ids, key) >= 0 ==> ids[position(ids, key)]@ == key,
        position(ids, key) == -1 ==> forall|i: int| 0 <= i < ids.len() ==> (#[trigger] ids[i])@
            != key,
        distinct(ids) ==> forall|i: int|
            0 <= i < ids.len() && (#[trigger] ids[i])@ == key ==> position(ids, key) == i,
    decreases ids.len(),
{
    if ids.len() > 0 {
        lemma_position(ids.drop_last(), key);
        if ids.last()@ != key {
            assert forall|i: int| 0 <= i < ids.len() && (#[trigger] ids[i])@ == key implies i
                < ids.len() - 1 && ids.drop_last()[i]@ == key by {}
            assert forall|i: int| 0 <= i < ids.len() - 1 implies (#[trigger] ids[i])@
                == ids.drop_last()[i]@ by {}
            if distinct(ids) {
                assert(distinct(ids.drop_last())) by {
                    assert forall|i: int, j: int| 0 <= i < j < ids.drop_last().len() implies (
                    #[trigger] ids.drop_last()[i])@ != (#[trigger] ids.drop_last()[j])@ by {}
                }
            }
        }
    }
}

/// Whether two byte strings are the same.
fn same_bytes(a: &[u8], b: &[u8]) -> (same: bool)
    ensures
        same == (a@ == b@),
{
    if a.len() != b.len() {
        return false;
    }
    let mut i: usize = 0;
    while i < a.len()
        invariant
            i <= a@.len(),
            a@.len() == b@.len(),
            forall|j: int| 0 <= j < i ==> a@[j] == b@[j],
        decreases a@.len() - i,
    {
        if a[i] != b[i] {
            return false;
        }
        i += 1;
    }
    assert(a@ =~= b@);
    true
}

#[derive(Debug)]
pub struct ConnectionManager {
    ids: Vec<Vec<u8>>,
    connections: Vec<Connection>,
}

impl View for ConnectionManager {
    type V = Map<Seq<u8>, Connection>;

    /// The table as a map from identifier to connection.
    closed spec fn view(&self) -> Map<Seq<u8>, Connection> {
        Map::new(
            |key: Seq<u8>| position(self.ids@, key) >= 0,
            |key: Seq<u8>| self.connections@[position(self.ids@, key)],
        )
    }
}

impl ConnectionManager {
    /// What always holds of a table: one connection for each identifier,
    /// and no identifier twice.
    pub closed spec fn wf(&self) -> bool {
        self.ids@.len() == self.connections@.len() && distinct(self.ids@)
    }

    pub fn new() -> (manager: Self)
        ensures
            manager.wf(),
            manager@ == Map::<Seq<u8>, Connection>::empty(),
    {
        let manager = Self { ids: Vec::new(), connections: Vec::new() };
        manager
    }

    /// Where the entry of `conn_id` stands.
    fn find(&self, conn_id: &[u8]) -> (found: Option<usize>)
        requires
            self.wf(),
        ensures
            match found {
                Some(i) => position(self.ids@, conn_id@) == i && i < self.ids@.len(),
                None => position(self.ids@, conn_id@) == -1,
            },
    {
        proof {
            lemma_position(self.ids@, conn_id@);
        }
        let mut i: usize = 0;
        while i < self.ids.len()
            invariant
                self.wf(),
                i <= self.ids@.len(),
                forall|j: int| 0 <= j < i ==> (#[trigger] self.ids@[j])@ != conn_id@,
            decreases self.ids@.len() - i,
        {
            if same_bytes(self.ids[i].as_slice(), conn_id) {
                proof {
                    lemma_position(self.ids@, conn_id@);
                }
                return Some(i);
            }
            i += 1;
        }
        proof {
            lemma_position(self.ids@, conn_id@);
        }
        None
    }

    /// The number of connections in the table.
    pub fn len(&self) -> (n: usize)
        requires
            self.wf(),
        ensures
            n == self@.dom().len(),
            self@.dom().finite(),
    {
        proof {
            self.lemma_domain_size();
        }
        self.ids.len()
    }

    /// The table has as many keys as it has entries.
    proof fn lemma_domain_size(&self)
        requires
            self.wf(),
        ensures
            self@.dom().finite(),
            self@.dom().len() == self.ids@.len(),
    {
        lemma_domain_of(self.ids@, self@.dom());
    }

    /// The connection that `conn_id` names, to read and to change.
    pub fn get_connection(&mut self, conn_id: &[u8]) -> (res: Option<&mut Connection>)
        requires
            old(self).wf(),
        ensures
            final(self).wf(),
            match res {
                Some(connection) => {
                    &&& old(self)@.contains_key(conn_id@)
                    &&& *connection == old(self)@[conn_id@]
                    &&& final(self)@ == old(self)@.insert(conn_id@, *final(connection))
                },
                None => !old(self)@.contains_key(conn_id@) && final(self)@ == old(self)@,
            },
    {
        match self.find(conn_id) {
            Some(i) => {
                let ghost ids = self.ids@;
                let ghost before = self.connections@;
                let ghost table = self@;
                let connection = &mut self.connections[i];
                proof {
                    let after = before.update(i as int, *final(connection));
                    let changed = Map::new(
                        |key: Seq<u8>| position(ids, key) >= 0,
                        |key: Seq<u8>| after[position(ids, key)],
                    );
                    assert(changed =~= table.insert(conn_id@, *final(connection))) by {
                        lemma_position(ids, conn_id@);
                        assert forall|key: Seq<u8>| #[trigger]
                            changed.contains_key(key) implies changed[key] == table.insert(
                            conn_id@,
                            *final(connection),
                        )[key] by {
                            lemma_position(ids, key);
                        }
                    }
                }
                Some(connection)
            },
            None => None,
        }
    }

    /// Whether `conn_id` names a connection.
    pub fn contains(&self, conn_id: &[u8]) -> (found: bool)
        requires
            self.wf(),
        ensures
            found == self@.contains_key(conn_id@),
    {
        self.find(conn_id).is_some()
    }

    /// Puts `connection` in the table under `conn_id`, in place of the
    /// connection that stood there, if any.
    pub fn add_connection(&mut self, conn_id: Vec<u8>, connection: Connection)
        requires
            old(self).wf(),
        ensures
            final(self).wf(),
            final(self)@ == old(self)@.insert(conn_id@, connection),
    {
        let ghost ids = self.ids@;
        match self.find(conn_id.as_slice()) {
            Some(i) => {
                self.connections[i] = connection;
                proof {
                    assert(final(self)@ =~= old(self)@.insert(conn_id@, connection)) by {
                        lemma_position(ids, conn_id@);
                        assert forall|key: Seq<u8>| #[trigger]
                            final(self)@.contains_key(key) implies final(self)@[key] == old(
                            self,
                        )@.insert(conn_id@, connection)[key] by {
                            lemma_position(ids, key);
                        }
                    }
                }
            },
            None => {
                self.ids.push(conn_id);
                self.connections.push(connection);
                proof {
                    lemma_position(ids, conn_id@);
                    assert(self.ids@.drop_last() =~= ids);
                    assert(distinct(self.ids@)) by {
                        assert forall|i: int, j: int| 0 <= i < j < self.ids@.len() implies (
                        #[trigger] self.ids@[i])@ != (#[trigger] self.ids@[j])@ by {}
                    }
                    assert(final(self)@ =~= old(self)@.insert(conn_id@, connection)) by {
                        assert forall|key: Seq<u8>|
                            position(self.ids@, key) == (if key == conn_id@ {
                                ids.len() as int
                            } else {
                                position(ids, key)
                            }) by {
                            lemma_position(ids, key);
                        }
                        assert forall|key: Seq<u8>| #[trigger]
                            final(self)@.contains_key(key) implies final(self)@[key] == old(
                            self,
                        )@.insert(conn_id@, connection)[key] by {
                            lemma_position(ids, key);
                        }
                    }
                }
            },
        }
    }

    /// Takes the connection that `conn_id` names out of the table.
    pub fn remove_connection(&mut self, conn_id: &[u8])
        requires
            old(self).wf(),
        ensures
            final(self).wf(),
            final(self)@ == old(self)@.remove(conn_id@),
    {
        let ghost ids = self.ids@;
        match self.find(conn_id) {
            Some(i) => {
                self.ids.remove(i);
                self.connections.remove(i);
                proof {
                    lemma_position(ids, conn_id@);
                    let left = self.ids@;
                    assert(distinct(left)) by {
                        assert forall|a: int, b: int| 0 <= a < b < left.len() implies (
                        #[trigger] left[a])@ != (#[trigger] left[b])@ by {}
                    }
                    assert forall|key: Seq<u8>|
                        position(left, key) == (if key == conn_id@ {
                            -1
                        } else if position(ids, key) > i {
                            position(ids, key) - 1
                        } else {
                            position(ids, key)
                        }) by {
                        lemma_position(ids, key);
                        lemma_position(left, key);
                        let p = position(ids, key);
                        if key != conn_id@ && p >= 0 {
                            let q = if p > i { p - 1 } else { p };
                            assert(left[q]@ == key);
                        }
                    }
                    assert(final(self)@ =~= old(self)@.remove(conn_id@)) by {
                        assert forall|key: Seq<u8>| #[trigger]
                            final(self)@.contains_key(key) implies final(self)@[key] == old(
                            self,
                        )@.remove(conn_id@)[key] by {
                            lemma_position(ids, key);
                        }
                    }
                }
            },
            None => {},
        }
    }
}

/// Where a datagram goes.
pub enum Route {
    /// Nowhere: no header can be read from it, or it has a short header and
    /// names no connection of the table.
    Discard,
    /// To the connection that its destination identifier names.
    Known(Seq<u8>),
    /// To a new connection that answers the peer which names itself by the
    /// given source identifier.
    New(Seq<u8>),
}

/// The identifier that a header is addressed to.
pub open spec fn header_destination(header: HeaderView) -> Seq<u8> {
    match header {
        HeaderView::Long { dest_conn_id, .. } => dest_conn_id,
        HeaderView::Short { dest_conn_id, .. } => dest_conn_id,
    }
}

/// Where a datagram goes in a table: to the connection that its destination
/// identifier names; where it names none, a long header starts a new
/// connection and anything else is discarded.
pub open spec fn route(table: Map<Seq<u8>, Connection>, datagram: Seq<u8>) -> Route {
    match decode_header(datagram) {
        None => Route::Discard,
        Some((header, used)) => if table.contains_key(header_destination(header)) {
            Route::Known(header_destination(header))
        } else {
            match header {
                HeaderView::Long { src_conn_id, .. } => Route::New(src_conn_id),
                HeaderView::Short { .. } => Route::Discard,
            }
        },
    }
}

/// A responder that was just made for a peer, with or without a TLS driver.
pub open spec fn new_responder(id: Seq<u8>, source: Seq<u8>, peer: PeerAddr, has_tls: bool)
    -> ConnectionView {
    ConnectionView { has_tls, ..fresh_connection(id, Some(source), peer, false) }
}

/// Whether `after` and `outputs` are what comes of handing `datagram` from
/// `peer` to the table `before`.
///
/// A datagram that goes nowhere changes nothing and is answered with
/// nothing.  One that goes to a known connection is taken by it; the
/// connection stays in the table unless it is then Closed, and no other
/// entry changes.  One that goes to a new connection is taken by a responder
/// that was just made; the responder enters the table under its own
/// identifier unless it is then Closed, and no other entry changes.
pub open spec fn routed(
    before: Map<Seq<u8>, Connection>,
    after: Map<Seq<u8>, Connection>,
    peer: PeerAddr,
    datagram: Seq<u8>,
    outputs: Seq<Seq<u8>>,
) -> bool {
    match route(before, datagram) {
        Route::Discard => after == before && outputs.len() == 0,
        Route::Known(key) => exists|outcomes: Seq<TlsOutcomeView>|
            {
                let step = #[trigger] before[key]@.after_datagram(datagram, outcomes);
                &&& outputs == step.1
                &&& if step.0.state == ConnectionState::Closed {
                    after == before.remove(key)
                } else {
                    &&& after.contains_key(key)
                    &&& after[key]@ == step.0
                    &&& after.remove(key) == before.remove(key)
                }
            },
        Route::New(source) => exists|id: Seq<u8>, has_tls: bool, outcomes: Seq<TlsOutcomeView>|
            {
                let step = #[trigger] new_responder(id, source, peer, has_tls).after_datagram(
                    datagram,
                    outcomes,
                );
                &&& outputs == step.1
                &&& if step.0.state == ConnectionState::Closed {
                    after == before
                } else {
                    &&& after.contains_key(id)
                    &&& after[id]@ == step.0
                    &&& after.remove(id) == before.remove(id)
                }
            },
    }
}

impl ConnectionManager {
    /// Hands a datagram from `peer` to the connection that it names and
    /// returns the datagrams to answer with.
    ///
    /// A datagram whose destination identifier names no connection starts a
    /// new one where it has a long header: a responder for the peer, with
    /// its TLS driver set up from `tls_config` where one is given, which is
    /// put in the table under the identifier that it chose for itself.  A
    /// connection that is Closed once it has taken the datagram leaves the
    /// table, or never enters it.
    #[verifier::rlimit(30)]
    pub fn ingest_datagram(
        &mut self,
        peer: PeerAddr,
        datagram: &[u8],
        tls_config: Option<Arc<TlsConfig>>,
    ) -> (outputs: Vec<Vec<u8>>)
        requires
            old(self).wf(),
        ensures
            final(self).wf(),
            routed(old(self)@, final(self)@, peer, datagram@, datagram_views(outputs@)),
    {
        let header = match PacketHeader::from_bytes(datagram) {
            Ok((header, _)) => header,
            Err(_) => {
                let outputs: Vec<Vec<u8>> = Vec::new();
                return outputs;
            },
        };
        let (key, source) = match header {
            PacketHeader::Long(h) => (h.dest_conn_id.data, Some(h.src_conn_id)),
            PacketHeader::Short(h) => (h.dest_conn_id.data, None),
        };
        let ghost table = self@;
        let ghost mut seen: Seq<TlsOutcomeView> = Seq::empty();
        let ghost mut after = fresh_connection(key@, None, peer, false);
        if self.contains(key.as_slice()) {
            let (outputs, closed) = match self.get_connection(key.as_slice()) {
                Some(connection) => {
                    let ghost before = connection@;
                    let outputs = connection.ingest_datagram(datagram);
                    proof {
                        seen = choose|outcomes: Seq<TlsOutcomeView>| #[trigger]
                            before.after_datagram(datagram@, outcomes) == (
                                connection@,
                                datagram_views(outputs@),
                            );
                        after = connection@;
                    }
                    let closed = connection.is_closed();
                    (outputs, closed)
                },
                None => (Vec::new(), false),
            };
            if closed {
                self.remove_connection(key.as_slice());
                assert(self@ =~= table.remove(key@));
            } else {
                assert(self@.remove(key@) =~= table.remove(key@));
            }
            outputs
        } else {
            match source {
                None => {
                    let outputs: Vec<Vec<u8>> = Vec::new();
                    outputs
                },
                Some(source) => {
                    let mut connection = Connection::new_server(peer, source);
                    match tls_config {
                        Some(config) => {
                            let _ = connection.setup_tls(config);
                        },
                        None => {},
                    }
                    let ghost start = connection@;
                    let id = connection.local_conn_id.data.clone();
                    let outputs = connection.ingest_datagram(datagram);
                    proof {
                        seen = choose|outcomes: Seq<TlsOutcomeView>| #[trigger]
                            start.after_datagram(datagram@, outcomes) == (
                                connection@,
                                datagram_views(outputs@),
                            );
                        after = connection@;
                        assert(start == new_responder(
                            start.local_conn_id,
                            source@,
                            peer,
                            start.has_tls,
                        ));
                    }
                    if !connection.is_closed() {
                        self.add_connection(id, connection);
                        assert(self@.remove(id@) =~= table.remove(id@));
                    }
                    outputs
                },
            }
        }
    }
}

/// The keys of a table are as many as the identifiers it holds.
proof fn lemma_domain_of(ids: Seq<Vec<u8>>, dom: Set<Seq<u8>>)
    requires
        distinct(ids),
        forall|key: Seq<u8>| dom.contains(key) <==> position(ids, key) >= 0,
    ensures
        dom.finite(),
        dom.len() == ids.len(),
    decreases ids.len(),
{
    if ids.len() == 0 {
        assert(dom =~= Set::<Seq<u8>>::empty());
    } else {
        let last = ids.last()@;
        let rest = ids.drop_last();
        let smaller = dom.remove(last);
        lemma_position(ids, last);
        assert(distinct(rest)) by {
            assert forall|i: int, j: int| 0 <= i < j < rest.len() implies (#[trigger] rest[i])@ != (
            #[trigger] rest[j])@ by {}
        }
        assert forall|key: Seq<u8>| smaller.contains(key) <==> position(rest, key) >= 0 by {
            lemma_position(rest, key);
            lemma_position(ids, key);
        }
        lemma_domain_of(rest, smaller);
    }
}

} // verus!
