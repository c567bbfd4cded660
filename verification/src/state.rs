//! The plaintext state of a program: the decrypted form of a record.

use vstd::prelude::*;

use crate::field::{Field, Group};

verus! {

/// A program's state: the plaintext variables a program uses.
#[derive(Clone, Copy, Debug, PartialEq, Eq)]
pub struct State {
    /// The address this state belongs to.
    owner: Group,
    /// The balance of the account.
    balance: u64,
    /// The data of the state.
    data: Field,
    /// The nonce of the state (`G^r`).
    nonce: Group,
}

impl State {
    pub closed spec fn spec_owner(self) -> Group {
        self.owner
    }

    pub closed spec fn spec_balance(self) -> u64 {
        self.balance
    }

    pub closed spec fn spec_data(self) -> Field {
        self.data
    }

    pub closed spec fn spec_nonce(self) -> Group {
        self.nonce
    }

    /// Returns a new state.
    pub fn new(owner: Group, balance: u64, data: Field, nonce: Group) -> (r: State)
        ensures
            r.spec_owner() == owner,
            r.spec_balance() == balance,
            r.spec_data() == data,
            r.spec_nonce() == nonce,
    {
        State { owner, balance, data, nonce }
    }

    /// Returns the account owner.
    pub fn owner(&self) -> (r: Group)
        ensures
            r == self.spec_owner(),
    {
        self.owner
    }

    /// Returns the account balance.
    pub fn balance(&self) -> (r: u64)
        ensures
            r == self.spec_balance(),
    {
        self.balance
    }

    /// Returns the data.
    pub fn data(&self) -> (r: Field)
        ensures
            r == self.spec_data(),
    {
        self.data
    }

    /// Returns the nonce.
    pub fn nonce(&self) -> (r: Group)
        ensures
            r == self.spec_nonce(),
    {
        self.nonce
    }
}

} // verus!
