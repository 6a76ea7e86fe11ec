//! Binding the configured endpoints.

use crate::endpoint::{self, EndpointView, ListenEndpoint, SocketAddress};
use crate::text;
use vstd::prelude::*;

verus! {

/// One bound listener. The transport decides how an accepted connection becomes
/// the SSH byte stream.
#[derive(Debug)]
pub enum BoundListener<L> {
    Tcp { listener: L },
    WebSocket { listener: L, path: String },
}

/// Listener errors.
#[derive(Debug)]
pub enum Error {
    Bind { address: SocketAddress, source: String },
}

impl Error {
    /// The operator-facing description.
    pub fn message(&self) -> (r: String)
        ensures
            r@ == (match self {
                Error::Bind { address, source } => "cannot bind listen address "@ + address@ + ": "@
                    + source@,
            }),
    {
        match self {
            Error::Bind { address, source } => text::cat4(
                "cannot bind listen address ",
                address.as_str(),
                ": ",
                source.as_str(),
            ),
        }
    }
}

/// A bind was asked for, with this outcome.
pub open spec fn bind_asked<L, F: Fn(&SocketAddress) -> Result<L, String>>(
    bind: F,
    address: Seq<char>,
    outcome: Result<L, String>,
) -> bool {
    exists|asked: &SocketAddress| asked@ == address && #[trigger] bind.ensures((asked,), outcome)
}

/// A bound listener serves its endpoint: the transport and the path are the
/// endpoint's, and the socket is what binding its address gave.
pub open spec fn serves<L, F: Fn(&SocketAddress) -> Result<L, String>>(
    bound: BoundListener<L>,
    endpoint: EndpointView,
    bind: F,
) -> bool {
    match (bound, endpoint) {
        (BoundListener::Tcp { listener }, EndpointView::Tcp { address }) => bind_asked(
            bind,
            address,
            Ok(listener),
        ),
        (
            BoundListener::WebSocket { listener, path },
            EndpointView::WebSocket { address, path: expected },
        ) => path@ == expected && bind_asked(bind, address, Ok(listener)),
        _ => false,
    }
}

/// An endpoint was bound.
pub open spec fn was_bound<L, F: Fn(&SocketAddress) -> Result<L, String>>(
    endpoint: EndpointView,
    bind: F,
) -> bool {
    exists|listener: L| #[trigger] bound_as(endpoint, bind, listener)
}

/// An endpoint was bound as this socket.
pub open spec fn bound_as<L, F: Fn(&SocketAddress) -> Result<L, String>>(
    endpoint: EndpointView,
    bind: F,
    listener: L,
) -> bool {
    bind_asked(bind, endpoint::address_of(endpoint), Ok(listener))
}

/// Every endpoint is bound, in order, or the first failure is reported and no
/// listener is handed out.
pub open spec fn bound_all<L, F: Fn(&SocketAddress) -> Result<L, String>>(
    r: Result<Vec<BoundListener<L>>, Error>,
    endpoints: Seq<ListenEndpoint>,
    bind: F,
) -> bool {
    match r {
        Ok(list) => list@.len() == endpoints.len() && forall|i: int|
            0 <= i < endpoints.len() ==> serves(#[trigger] list@[i], endpoints[i]@, bind),
        Err(Error::Bind { address, source }) => exists|i: int|
            0 <= i < endpoints.len() && address@ == endpoint::address_of((#[trigger] endpoints[i])@)
                && bind_asked::<L, F>(bind, address@, Err(source)) && forall|k: int|
                0 <= k < i ==> was_bound::<L, F>((#[trigger] endpoints[k])@, bind),
    }
}

/// An endpoint is due to be bound: every endpoint before it was bound.
pub open spec fn bind_due<L, F: Fn(&SocketAddress) -> Result<L, String>>(
    endpoints: Seq<ListenEndpoint>,
    bind: F,
    i: int,
) -> bool {
    0 <= i < endpoints.len() && forall|k: int|
        0 <= k < i ==> was_bound::<L, F>((#[trigger] endpoints[k])@, bind)
}

/// Bind every configured endpoint or none of them. Only configured addresses
/// are bound, and none after a failure.
pub fn bind_all<L, F: Fn(&SocketAddress) -> Result<L, String>>(
    endpoints: &[ListenEndpoint],
    bind: &F,
) -> (r: Result<Vec<BoundListener<L>>, Error>)
    requires
        forall|i: int, address: &SocketAddress|
            address@ == endpoint::address_of(endpoints@[i]@) && #[trigger] bind_due::<L, F>(
                endpoints@,
                *bind,
                i,
            ) ==> #[trigger] bind.requires((address,)),
    ensures
        bound_all(r, endpoints@, *bind),
{
    let mut bound: Vec<BoundListener<L>> = Vec::new();
    let mut i: usize = 0;
    while i < endpoints.len()
        invariant
            i <= endpoints@.len(),
            bound@.len() == i,
            forall|i: int, address: &SocketAddress|
                address@ == endpoint::address_of(endpoints@[i]@) && #[trigger] bind_due::<L, F>(
                    endpoints@,
                    *bind,
                    i,
                ) ==> #[trigger] bind.requires((address,)),
            forall|k: int| 0 <= k < i ==> serves(#[trigger] bound@[k], endpoints@[k]@, *bind),
            forall|k: int| 0 <= k < i ==> was_bound::<L, F>((#[trigger] endpoints@[k])@, *bind),
        decreases endpoints@.len() - i,
    {
        let address = endpoints[i].address();
        assert(bind_due::<L, F>(endpoints@, *bind, i as int));
        let outcome = bind(&address);
        proof {
            let asked: &SocketAddress = &address;
            assert(bind.ensures((asked,), outcome));
            assert(bind_asked(*bind, address@, outcome));
        }
        match outcome {
            Err(source) => {
                assert(address@ == endpoint::address_of(endpoints@[i as int]@));
                return Err(Error::Bind { address, source });
            },
            Ok(listener) => {
                assert(bound_as(endpoints@[i as int]@, *bind, listener));
                let one = match &endpoints[i] {
                    ListenEndpoint::Tcp { .. } => BoundListener::Tcp { listener },
                    ListenEndpoint::WebSocket { path, .. } => BoundListener::WebSocket {
                        listener,
                        path: path.clone(),
                    },
                };
                assert(serves(one, endpoints@[i as int]@, *bind));
                bound.push(one);
            },
        }
        i = i + 1;
    }
    Ok(bound)
}

} // verus!
