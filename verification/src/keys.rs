//! The fixed-width values that the store holds and hands out.

use vstd::prelude::*;

verus! {

/// A symmetric key: the master key of a store file, or a key kept in the store.
#[derive(Clone, Copy, PartialEq, Eq)]
pub struct SecretKey(pub [u8; 32]);

/// The content-derived identifier under which the store files a symmetric key.
#[derive(Clone, Copy, Debug, PartialEq, Eq, Hash)]
pub struct KeyHash(pub [u8; 32]);

/// The long-lived secret that names this node on the peer network.
#[derive(Clone, Copy, PartialEq, Eq)]
pub struct IrohSecretKey(pub [u8; 32]);

/// The public identifier derived from an identity secret.
#[derive(Clone, Copy, Debug, PartialEq, Eq, Hash)]
pub struct NodeId(pub [u8; 32]);

impl View for SecretKey {
    type V = Seq<u8>;

    open spec fn view(&self) -> Seq<u8> {
        self.0@
    }
}

impl View for KeyHash {
    type V = Seq<u8>;

    open spec fn view(&self) -> Seq<u8> {
        self.0@
    }
}

impl View for IrohSecretKey {
    type V = Seq<u8>;

    open spec fn view(&self) -> Seq<u8> {
        self.0@
    }
}

impl View for NodeId {
    type V = Seq<u8>;

    open spec fn view(&self) -> Seq<u8> {
        self.0@
    }
}

} // verus!
