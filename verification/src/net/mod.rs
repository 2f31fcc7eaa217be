//! The networking abstraction: interfaces, clients and the routing of HTTP requests.

pub mod error;
pub mod http;
pub mod proxy;

pub use error::NetworkError;

use vstd::prelude::*;
use vstd::std_specs::convert::TryFromSpecImpl;

verus! {

/// Network interfaces that requests can go through.
#[derive(Debug, Clone, Copy, PartialEq, Eq, Structural)]
pub enum InterfaceType {
    /// The clear internet.
    Clear,
}

impl InterfaceType {
    /// The identifier that the storage records for the interface.
    pub open spec fn id_spec(self) -> i8 {
        match self {
            InterfaceType::Clear => 1,
        }
    }

    /// The identifier that the storage records for the interface.
    pub fn id(&self) -> (r: i8)
        ensures
            r == self.id_spec(),
    {
        match self {
            InterfaceType::Clear => 1,
        }
    }

    /// The interface recorded under `value`.
    pub fn try_from_id(value: i8) -> (r: Result<InterfaceType, NetworkError>)
        ensures
            match r {
                Ok(t) => t.id_spec() == value,
                Err(e) => e == NetworkError::UnsupportedNetworkInterfaceIdentifier(value) && value != 1,
            },
    {
        match value {
            1 => Ok(InterfaceType::Clear),
            _ => Err(NetworkError::UnsupportedNetworkInterfaceIdentifier(value)),
        }
    }
}

/// Recording an interface and reading it back gives the same interface.
pub proof fn law_interface_id_round_trip(t: InterfaceType)
    ensures
        t.id_spec() == 1,
        forall|u: InterfaceType| u.id_spec() == t.id_spec() ==> u == t,
{
}

/// The interface to the clear internet.
#[derive(Debug, Clone, Copy, PartialEq, Eq, Structural)]
pub struct ClearInterface {}

impl ClearInterface {
    /// A clear interface.
    pub fn new() -> (r: ClearInterface) {
        ClearInterface {  }
    }
}

/// A client for one informant execution.
#[derive(Debug, Clone, Copy, PartialEq, Eq, Structural)]
#[non_exhaustive]
pub enum Client {
    /// Through the clear internet.
    Clear(ClearInterface),
}

/// Networking abstraction layer, handling multiple network transports.
///
/// This must be the only interface to all network communications.
#[derive(Debug, Clone, Copy, PartialEq, Eq, Structural)]
pub struct Network {}

impl Network {
    /// Initializes connections to the network transports.
    pub fn new() -> (r: Result<Network, NetworkError>)
        ensures
            r is Ok,
    {
        Ok(Network {  })
    }

    /// A client going through `interface`; a separate client should be created for each
    /// informant execution.
    pub fn new_client(&self, interface: InterfaceType) -> (r: Client)
        ensures
            match interface {
                InterfaceType::Clear => r == Client::Clear(ClearInterface {  }),
            },
    {
        match interface {
            InterfaceType::Clear => Client::Clear(ClearInterface::new()),
        }
    }
}


/// The interface recorded under an identifier, or `UnsupportedNetworkInterfaceIdentifier`.
pub open spec fn interface_from_id_spec(value: i8) -> Result<InterfaceType, NetworkError> {
    if value == 1 {
        Ok(InterfaceType::Clear)
    } else {
        Err(NetworkError::UnsupportedNetworkInterfaceIdentifier(value))
    }
}

impl TryFrom<i8> for InterfaceType {
    type Error = NetworkError;

    fn try_from(value: i8) -> (r: Result<InterfaceType, NetworkError>) {
        InterfaceType::try_from_id(value)
    }
}

impl TryFromSpecImpl<i8> for InterfaceType {
    open spec fn obeys_try_from_spec() -> bool {
        true
    }

    open spec fn try_from_spec(value: i8) -> Result<InterfaceType, NetworkError> {
        interface_from_id_spec(value)
    }
}
} // verus!
