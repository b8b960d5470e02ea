//! The set of tokens whitelisted for fee payment.

use vstd::prelude::*;

use crate::Error;

verus! {

/// Tokens that may pay execution fees even without a pricing pool.
pub struct TokenWhitelist {
    /// The whitelisted token ids, each listed once.
    pub tokens: Vec<u128>,
}

impl TokenWhitelist {
    /// Well-formed: no token is listed twice.
    pub open spec fn wf(self) -> bool {
        forall|i: int, j: int|
            0 <= i < j < self.tokens@.len() ==> self.tokens@[i] != self.tokens@[j]
    }

    /// Whether `token` is whitelisted.
    pub open spec fn spec_contains(self, token: u128) -> bool {
        self.tokens@.contains(token)
    }

    /// An empty whitelist.
    pub fn new() -> (r: TokenWhitelist)
        ensures
            r.wf(),
            r.tokens@ == Seq::<u128>::empty(),
    {
        TokenWhitelist { tokens: Vec::new() }
    }

    /// Whether `token` is whitelisted.
    pub fn check_whitelisted_token(&self, token: u128) -> (r: bool)
        ensures
            r == self.spec_contains(token),
    {
        let n = self.tokens.len();
        let mut i: usize = 0;
        while i < n
            invariant
                n == self.tokens.len(),
                0 <= i <= n,
                forall|k: int| 0 <= k < i ==> self.tokens@[k] != token,
            decreases n - i,
        {
            if self.tokens[i] == token {
                return true;
            }
            i = i + 1;
        }
        false
    }

    /// Whitelists `token`; rejects one that is already listed.
    pub fn whitelist_token(&mut self, token: u128) -> (r: Result<(), Error>)
        requires
            old(self).wf(),
        ensures
            final(self).wf(),
            match r {
                Ok(()) => {
                    &&& !old(self).spec_contains(token)
                    &&& final(self).tokens@ == old(self).tokens@.push(token)
                },
                Err(e) => {
                    &&& e == Error::TokenIsAlreadyWhitelisted
                    &&& old(self).spec_contains(token)
                    &&& final(self).tokens@ == old(self).tokens@
                },
            },
    {
        if self.check_whitelisted_token(token) {
            Err(Error::TokenIsAlreadyWhitelisted)
        } else {
            self.tokens.push(token);
            Ok(())
        }
    }
}

} // verus!
