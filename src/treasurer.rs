//! The ledger: one signed balance that realised trades move in and out.
use crate::decimal::{difference_fits, sum_fits, Decimal};
use vstd::prelude::*;

verus! {

/// A balance of cash.
#[derive(Debug)]
pub struct Prosperity {
    pub balance: Decimal,
}

impl Prosperity {
    /// A ledger opening with `balance`, or with zero.
    pub fn new(balance: Option<Decimal>) -> (r: Prosperity)
        ensures
            balance is Some ==> r.balance == balance->0,
            balance is None ==> r.balance.val() == 0,
    {
        let balance = match balance {
            Some(b) => b,
            None => Decimal::zero(),
        };
        Prosperity { balance }
    }

    /// Adds `amount` to the balance.
    pub fn transfer_in(&mut self, amount: &Decimal)
        requires
            sum_fits(old(self).balance, *amount),
        ensures
            final(self).balance.val() == old(self).balance.val() + amount.val(),
    {
        self.balance = self.balance.checked_add(amount).unwrap();
    }

    /// Takes `amount` from the balance.
    pub fn transfer_out(&mut self, amount: &Decimal)
        requires
            difference_fits(old(self).balance, *amount),
        ensures
            final(self).balance.val() == old(self).balance.val() - amount.val(),
    {
        self.balance = self.balance.checked_sub(amount).unwrap();
    }

    pub fn balance(&self) -> (r: Decimal)
        ensures
            r == self.balance,
    {
        self.balance
    }
}

} // verus!
