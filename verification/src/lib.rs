//! The verified core of an XDCC fetcher. A control connection delivers an
//! unframed byte stream; the framer reassembles it into lines, the
//! classifier recognises keepalive probes, join confirmations and transfer
//! offers, the session reacts with the protocol's request lines and
//! dispatches one transfer per offer, and the transfer engine accounts each
//! transfer's bytes until every dispatched transfer has signalled
//! completion. Connecting, reading, writing and spawning stay outside;
//! everything the protocol decides is in here, under contract.

pub mod bytes;
pub mod classify;
pub mod framer;
pub mod session;
pub mod transfer;
