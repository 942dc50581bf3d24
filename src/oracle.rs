//! A price feed that only its admin may update.
use crate::types::ContractError;
use vstd::prelude::*;

verus! {

/// The price and the address allowed to change it.
pub struct FastOracle {
    pub admin: String,
    pub price: u128,
}

impl FastOracle {
    /// A feed owned by `admin`, at price zero.
    pub fn new(admin: String) -> (r: FastOracle)
        ensures
            r.admin == admin,
            r.price == 0,
    {
        FastOracle { admin, price: 0 }
    }

    /// Sets the price; only the admin may.
    pub fn execute_set_price(&mut self, sender: &String, price: u128) -> (r: Result<(), ContractError>)
        ensures
            r is Ok <==> sender@ == old(self).admin@,
            r is Ok ==> *final(self) == (FastOracle { price, ..*old(self) }),
            r is Err ==> r->Err_0 == ContractError::Unauthorized && *final(self) == *old(self),
    {
        if self.admin != *sender {
            return Err(ContractError::Unauthorized);
        }
        self.price = price;
        Ok(())
    }

    /// Hands the feed to `owner`; only the admin may.
    pub fn execute_set_owner(&mut self, sender: &String, owner: String) -> (r: Result<(), ContractError>)
        ensures
            r is Ok <==> sender@ == old(self).admin@,
            r is Ok ==> *final(self) == (FastOracle { admin: owner, ..*old(self) }),
            r is Err ==> r->Err_0 == ContractError::Unauthorized && *final(self) == *old(self),
    {
        if self.admin != *sender {
            return Err(ContractError::Unauthorized);
        }
        self.admin = owner;
        Ok(())
    }

    pub fn query_price(&self) -> (r: u128)
        ensures
            r == self.price,
    {
        self.price
    }
}

} // verus!
