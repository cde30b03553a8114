//! The requester whitelist: which accounts may post data requests, and the
//! per-requester stake multiplier. An absent whitelist allows everyone.

use vstd::prelude::*;

use crate::types::AccountId;

verus! {

/// One whitelisted requester and its configuration.
pub struct Requester {
    pub contract_name: String,
    pub account_id: AccountId,
    pub stake_multiplier: Option<u16>,
    pub code_base_url: Option<String>,
}

impl Clone for Requester {
    /// Cloning keeps the mathematical value.
    fn clone(&self) -> (r: Self)
        ensures
            r == *self,
    {
        Requester {
            contract_name: self.contract_name.clone(),
            account_id: self.account_id.clone(),
            stake_multiplier: match &self.stake_multiplier {
                Option::Some(m) => Option::Some(*m),
                Option::None => Option::None,
            },
            code_base_url: match &self.code_base_url {
                Option::Some(u) => Option::Some(u.clone()),
                Option::None => Option::None,
            },
        }
    }
}

impl Requester {
    /// The stand-in requester used when no whitelist is configured: the
    /// account itself, with no custom multiplier.
    pub fn new_no_whitelist(account_id: &AccountId) -> (r: Self)
        ensures
            r.account_id@ == account_id@,
            r.contract_name@ == Seq::<char>::empty(),
            r.stake_multiplier.is_none(),
            r.code_base_url.is_none(),
    {
        Requester {
            contract_name: String::new(),
            account_id: account_id.clone(),
            stake_multiplier: Option::None,
            code_base_url: Option::None,
        }
    }
}

/// The first entry registered for the account, if any.
pub open spec fn wl_lookup(s: Seq<Requester>, a: Seq<char>) -> Option<Requester>
    decreases s.len(),
{
    if s.len() == 0 {
        Option::<Requester>::None
    } else if s[0].account_id@ == a {
        Option::Some(s[0])
    } else {
        wl_lookup(s.drop_first(), a)
    }
}

/// The last entry registered for the account, if any: what a sequence of map
/// inserts leaves behind.
pub open spec fn wl_last_entry(s: Seq<Requester>, a: Seq<char>) -> Option<Requester>
    decreases s.len(),
{
    if s.len() == 0 {
        Option::<Requester>::None
    } else if s.last().account_id@ == a {
        Option::Some(s.last())
    } else {
        wl_last_entry(s.drop_last(), a)
    }
}

/// No two entries share an account.
pub open spec fn wl_keys_unique(s: Seq<Requester>) -> bool {
    forall|i: int, j: int| 0 <= i < j < s.len() ==> s[i].account_id@ != s[j].account_id@
}

proof fn lemma_wl_lookup_at(s: Seq<Requester>, k: int)
    requires
        0 <= k < s.len(),
        forall|j: int| 0 <= j < k ==> s[j].account_id@ != s[k].account_id@,
    ensures
        wl_lookup(s, s[k].account_id@) == Option::Some(s[k]),
    decreases k,
{
    if k > 0 {
        lemma_wl_lookup_at(s.drop_first(), k - 1);
    }
}

proof fn lemma_wl_lookup_absent(s: Seq<Requester>, a: Seq<char>)
    requires
        forall|j: int| 0 <= j < s.len() ==> s[j].account_id@ != a,
    ensures
        wl_lookup(s, a) is None,
    decreases s.len(),
{
    if s.len() > 0 {
        lemma_wl_lookup_absent(s.drop_first(), a);
    }
}

proof fn lemma_wl_lookup_update(s: Seq<Requester>, k: int, e: Requester)
    requires
        0 <= k < s.len(),
        forall|j: int| 0 <= j < s.len() && j != k ==> s[j].account_id@ != s[k].account_id@,
        e.account_id@ == s[k].account_id@,
    ensures
        forall|a: Seq<char>|
            wl_lookup(s.update(k, e), a) == if a == e.account_id@ {
                Option::Some(e)
            } else {
                wl_lookup(s, a)
            },
    decreases k,
{
    if k == 0 {
        assert(s.update(0, e).drop_first() =~= s.drop_first());
        assert forall|a: Seq<char>| a != e.account_id@ implies wl_lookup(s.update(0, e), a)
            == wl_lookup(s, a) by {
            assert(wl_lookup(s.update(0, e), a) == wl_lookup(s.update(0, e).drop_first(), a));
        }
    } else {
        lemma_wl_lookup_update(s.drop_first(), k - 1, e);
        assert(s.update(k, e).drop_first() =~= s.drop_first().update(k - 1, e));
        assert(s.update(k, e)[0] == s[0]);
        assert forall|a: Seq<char>|
            wl_lookup(s.update(k, e), a) == (if a == e.account_id@ {
                Option::Some(e)
            } else {
                wl_lookup(s, a)
            }) by {
            assert(wl_lookup(s.drop_first().update(k - 1, e), a) == (if a == e.account_id@ {
                Option::Some(e)
            } else {
                wl_lookup(s.drop_first(), a)
            }));
        }
    }
}

proof fn lemma_wl_lookup_push(s: Seq<Requester>, e: Requester)
    requires
        forall|j: int| 0 <= j < s.len() ==> s[j].account_id@ != e.account_id@,
    ensures
        forall|a: Seq<char>|
            wl_lookup(s.push(e), a) == if a == e.account_id@ {
                Option::Some(e)
            } else {
                wl_lookup(s, a)
            },
    decreases s.len(),
{
    if s.len() == 0 {
        assert(s.push(e)[0] == e);
        assert(s.push(e).drop_first() =~= s);
    } else {
        lemma_wl_lookup_push(s.drop_first(), e);
        assert(s.push(e).drop_first() =~= s.drop_first().push(e));
        assert(s.push(e)[0] == s[0]);
        assert forall|a: Seq<char>|
            wl_lookup(s.push(e), a) == (if a == e.account_id@ {
                Option::Some(e)
            } else {
                wl_lookup(s, a)
            }) by {
            assert(wl_lookup(s.drop_first().push(e), a) == (if a == e.account_id@ {
                Option::Some(e)
            } else {
                wl_lookup(s.drop_first(), a)
            }));
        }
    }
}

proof fn lemma_wl_lookup_remove(s: Seq<Requester>, k: int)
    requires
        0 <= k < s.len(),
        forall|j: int| 0 <= j < s.len() && j != k ==> s[j].account_id@ != s[k].account_id@,
    ensures
        wl_lookup(s.remove(k), s[k].account_id@) is None,
        forall|a: Seq<char>|
            a != s[k].account_id@ ==> wl_lookup(s.remove(k), a) == wl_lookup(s, a),
    decreases k,
{
    if k == 0 {
        assert(s.remove(0) =~= s.drop_first());
        assert forall|j: int| 0 <= j < s.drop_first().len() implies s.drop_first()[j].account_id@
            != s[0].account_id@ by {}
        lemma_wl_lookup_absent(s.drop_first(), s[0].account_id@);
    } else {
        lemma_wl_lookup_remove(s.drop_first(), k - 1);
        assert(s.remove(k).drop_first() =~= s.drop_first().remove(k - 1));
        assert(s.remove(k)[0] == s[0]);
        assert forall|a: Seq<char>| a != s[k].account_id@ implies wl_lookup(s.remove(k), a)
            == wl_lookup(s, a) by {
            assert(wl_lookup(s.drop_first().remove(k - 1), a) == wl_lookup(s.drop_first(), a));
        }
        assert(wl_lookup(s.drop_first().remove(k - 1), s[k].account_id@) is None);
    }
}

/// Requester account to requester configuration; `None` means no whitelist
/// was configured and everyone is allowed.
pub struct Whitelist(pub Option<Vec<Requester>>);

impl Whitelist {
    /// Keys are unique, so the lookup function describes the list exactly.
    pub open spec fn wf(self) -> bool {
        match self.0 {
            Option::Some(v) => wl_keys_unique(v@),
            Option::None => true,
        }
    }

    /// The entry registered for the account, if the whitelist exists and
    /// holds one.
    pub open spec fn entry_of(self, a: Seq<char>) -> Option<Requester> {
        match self.0 {
            Option::Some(v) => wl_lookup(v@, a),
            Option::None => Option::<Requester>::None,
        }
    }

    /// Builds a whitelist from the initial entries; a later entry for the
    /// same account replaces the earlier one, as a map insert would.
    #[verifier::loop_isolation(false)]
    pub fn new(initial_whitelist: Option<Vec<Requester>>) -> (r: Self)
        ensures
            r.wf(),
            r.0 is Some <==> initial_whitelist is Some,
            initial_whitelist matches Option::Some(v) ==> forall|a: Seq<char>|
                #[trigger] r.entry_of(a) == wl_last_entry(v@, a),
    {
        match initial_whitelist {
            Option::Some(v) => {
                let mut w = Whitelist(Option::Some(Vec::new()));
                let mut i: usize = 0;
                proof {
                    assert forall|a: Seq<char>| #[trigger] w.entry_of(a) == wl_last_entry(
                        v@.take(0), a) by {
                        assert(w.entry_of(a) is None);
                        assert(v@.take(0).len() == 0);
                    }
                }
                while i < v.len()
                    invariant
                        0 <= i <= v@.len(),
                        w.wf(),
                        w.0 is Some,
                        forall|a: Seq<char>|
                            #[trigger] w.entry_of(a) == wl_last_entry(v@.take(i as int), a),
                    decreases v@.len() - i,
                {
                    w.upsert(&v[i]);
                    proof {
                        assert forall|a: Seq<char>| #[trigger] w.entry_of(a) == wl_last_entry(
                            v@.take(i + 1), a) by {
                            assert(v@.take(i + 1).drop_last() =~= v@.take(i as int));
                            assert(v@.take(i + 1).last() == v@[i as int]);
                        }
                    }
                    i = i + 1;
                }
                proof {
                    assert(v@.take(v@.len() as int) =~= v@);
                }
                w
            },
            Option::None => Whitelist(Option::None),
        }
    }

    /// Whether the account has an entry. Reading an absent whitelist is a
    /// caller error by design, so an entry is required here.
    #[verifier::loop_isolation(false)]
    pub fn contains(&self, requester: &AccountId) -> (r: bool)
        requires
            self.wf(),
            self.0 is Some,
        ensures
            r == self.entry_of(requester@) is Some,
    {
        match &self.0 {
            Option::Some(v) => {
                let n = v.len();
                let mut i: usize = 0;
                while i < n
                    invariant
                        n == v@.len(),
                        0 <= i <= n,
                        wl_keys_unique(v@),
                        forall|j: int| 0 <= j < i ==> v@[j].account_id@ != requester@,
                    decreases n - i,
                {
                    if v[i].account_id == *requester {
                        proof {
                            lemma_wl_lookup_at(v@, i as int);
                        }
                        return true;
                    }
                    i = i + 1;
                }
                proof {
                    lemma_wl_lookup_absent(v@, requester@);
                }
                false
            },
            Option::None => false,
        }
    }

    /// The requester's stake multiplier; `None` without a whitelist. The
    /// account must be whitelisted when a whitelist exists.
    pub fn get_stake_multiplier(&self, requester: &AccountId) -> (r: Result<Option<u16>,
        crate::error::OracleError>)
        requires
            self.wf(),
        ensures
            match r {
                Ok(m) => match self.0 {
                    Option::Some(_) => self.entry_of(requester@) matches Option::Some(e)
                        && m == e.stake_multiplier,
                    Option::None => m is None,
                },
                Err(e) => e == crate::error::OracleError::NotWhitelisted && self.0 is Some
                    && self.entry_of(requester@) is None,
            },
    {
        match self.whitelist_get_expect(requester) {
            Ok(e) => Ok(e.stake_multiplier),
            Err(e) => {
                match &self.0 {
                    Option::Some(_) => Err(e),
                    Option::None => Ok(Option::None),
                }
            },
        }
    }

    /// The requester's entry; without a whitelist, a stand-in entry for the
    /// account itself.
    #[verifier::loop_isolation(false)]
    pub fn whitelist_get_expect(&self, requester: &AccountId) -> (r: Result<Requester,
        crate::error::OracleError>)
        requires
            self.wf(),
        ensures
            match r {
                Ok(e) => match self.0 {
                    Option::Some(_) => self.entry_of(requester@) == Option::Some(e),
                    Option::None => e.account_id@ == requester@ && e.stake_multiplier is None,
                },
                Err(e) => e == crate::error::OracleError::NotWhitelisted && self.0 is Some
                    && self.entry_of(requester@) is None,
            },
    {
        match &self.0 {
            Option::Some(v) => {
                let n = v.len();
                let mut i: usize = 0;
                while i < n
                    invariant
                        n == v@.len(),
                        0 <= i <= n,
                        wl_keys_unique(v@),
                        forall|j: int| 0 <= j < i ==> v@[j].account_id@ != requester@,
                    decreases n - i,
                {
                    if v[i].account_id == *requester {
                        proof {
                            lemma_wl_lookup_at(v@, i as int);
                        }
                        return Ok(v[i].clone());
                    }
                    i = i + 1;
                }
                proof {
                    lemma_wl_lookup_absent(v@, requester@);
                }
                Err(crate::error::OracleError::NotWhitelisted)
            },
            Option::None => Ok(Requester::new_no_whitelist(requester)),
        }
    }

    /// Inserts or replaces the entry for `new_requester`'s account. An absent
    /// whitelist becomes a one-entry whitelist, as the governance path does.
    #[verifier::loop_isolation(false)]
    pub fn upsert(&mut self, new_requester: &Requester)
        requires
            old(self).wf(),
        ensures
            final(self).wf(),
            final(self).0 is Some,
            final(self).entry_of(new_requester.account_id@) == Option::Some(*new_requester),
            forall|a: Seq<char>|
                a != new_requester.account_id@ ==> #[trigger] final(self).entry_of(a) == old(
                    self).entry_of(a),
    {
        let e = new_requester.clone();
        match &mut self.0 {
            Option::Some(v) => {
                let n = v.len();
                let mut i: usize = 0;
                while i < n
                    invariant
                        n == v@.len(),
                        0 <= i <= n,
                        wl_keys_unique(v@),
                        v@ == old(self).0->0@,
                        e == *new_requester,
                        forall|j: int| 0 <= j < i ==> v@[j].account_id@ != e.account_id@,
                    decreases n - i,
                {
                    if v[i].account_id == e.account_id {
                        proof {
                            lemma_wl_lookup_update(v@, i as int, e);
                        }
                        v.set(i, e);
                        return ;
                    }
                    i = i + 1;
                }
                proof {
                    lemma_wl_lookup_push(v@, e);
                    lemma_wl_lookup_absent(v@, e.account_id@);
                }
                v.push(e);
            },
            Option::None => {
                let mut v: Vec<Requester> = Vec::new();
                proof {
                    lemma_wl_lookup_push(v@, e);
                }
                v.push(e);
                proof {
                    assert forall|a: Seq<char>| a != new_requester.account_id@ implies wl_lookup(
                        v@, a) is None by {
                        lemma_wl_lookup_absent(v@.drop_first(), a);
                    }
                }
                self.0 = Option::Some(v);
            },
        }
    }

    /// Removes the entry for the account, if one exists. The whitelist must
    /// exist.
    #[verifier::loop_isolation(false)]
    pub fn remove_account(&mut self, account: &AccountId)
        requires
            old(self).wf(),
            old(self).0 is Some,
        ensures
            final(self).wf(),
            final(self).0 is Some,
            final(self).entry_of(account@) is None,
            forall|a: Seq<char>|
                a != account@ ==> #[trigger] final(self).entry_of(a) == old(self).entry_of(a),
    {
        match &mut self.0 {
            Option::Some(v) => {
                let n = v.len();
                let mut i: usize = 0;
                while i < n
                    invariant
                        n == v@.len(),
                        0 <= i <= n,
                        wl_keys_unique(v@),
                        v@ == old(self).0->0@,
                        forall|j: int| 0 <= j < i ==> v@[j].account_id@ != account@,
                    decreases n - i,
                {
                    if v[i].account_id == *account {
                        proof {
                            lemma_wl_lookup_remove(v@, i as int);
                        }
                        v.remove(i);
                        return ;
                    }
                    i = i + 1;
                }
                proof {
                    lemma_wl_lookup_absent(v@, account@);
                }
            },
            Option::None => {},
        }
    }
}

impl crate::Contract {
    /// Registers (or replaces) a requester; governance only, and a custom
    /// stake multiplier must be positive.
    pub fn add_to_whitelist(&mut self, caller: &AccountId, new_requester: Requester) -> (r:
        Result<(), crate::error::OracleError>)
        requires
            old(self).wf(),
        ensures
            final(self).wf(),
            r is Ok <==> (caller@ == old(self).current_config().gov@
                && (new_requester.stake_multiplier matches Option::Some(m) ==> m > 0)),
            r matches Ok(_) ==> ({
                &&& final(self).whitelist.entry_of(new_requester.account_id@) == Option::Some(
                    new_requester)
                &&& (forall|a: Seq<char>|
                    a != new_requester.account_id@ ==> #[trigger] final(self).whitelist.entry_of(
                        a) == old(self).whitelist.entry_of(a))
                &&& final(self).configs == old(self).configs
                &&& final(self).data_requests == old(self).data_requests
                &&& final(self).accounts == old(self).accounts
                &&& final(self).paused == old(self).paused
            }),
            r matches Err(e) ==> *final(self) == *old(self) && (e
                == crate::error::OracleError::GovOnly <==> caller@ != old(
                self).current_config().gov@),
    {
        if let Err(e) = self.assert_gov(caller) {
            return Err(e);
        }
        match &new_requester.stake_multiplier {
            Option::Some(m) => {
                if *m == 0 {
                    return Err(crate::error::OracleError::InvalidStakeMultiplier);
                }
            },
            Option::None => {},
        }
        self.whitelist.upsert(&new_requester);
        Ok(())
    }

    /// Removes a requester's entry; governance only, and only from a
    /// whitelist that exists.
    pub fn remove_from_whitelist(&mut self, caller: &AccountId, requester: &Requester) -> (r:
        Result<(), crate::error::OracleError>)
        requires
            old(self).wf(),
        ensures
            final(self).wf(),
            r is Ok <==> (caller@ == old(self).current_config().gov@ && old(self).whitelist.0
                is Some),
            r matches Ok(_) ==> ({
                &&& final(self).whitelist.entry_of(requester.account_id@) is None
                &&& (forall|a: Seq<char>|
                    a != requester.account_id@ ==> #[trigger] final(self).whitelist.entry_of(a)
                        == old(self).whitelist.entry_of(a))
                &&& final(self).configs == old(self).configs
                &&& final(self).data_requests == old(self).data_requests
                &&& final(self).accounts == old(self).accounts
                &&& final(self).paused == old(self).paused
            }),
            r matches Err(e) ==> *final(self) == *old(self) && (e
                == crate::error::OracleError::GovOnly <==> caller@ != old(
                self).current_config().gov@),
    {
        if let Err(e) = self.assert_gov(caller) {
            return Err(e);
        }
        match &self.whitelist.0 {
            Option::Some(_) => {},
            Option::None => {
                return Err(crate::error::OracleError::NotWhitelisted);
            },
        }
        self.whitelist.remove_account(&requester.account_id);
        Ok(())
    }

    /// Whether the account has a whitelist entry. Asking an absent whitelist
    /// is a caller error by design, so one is required here.
    pub fn whitelist_contains(&self, requester: &AccountId) -> (r: bool)
        requires
            self.wf(),
            self.whitelist.0 is Some,
        ensures
            r == self.whitelist.entry_of(requester@) is Some,
    {
        self.whitelist.contains(requester)
    }

    /// With a whitelist configured only its members may post requests;
    /// without one, everyone may.
    pub fn assert_whitelisted(&self, requester: &AccountId) -> (r: Result<
        (),
        crate::error::OracleError,
    >)
        requires
            self.wf(),
        ensures
            r is Ok <==> (self.whitelist.0 is None || self.whitelist.entry_of(requester@)
                is Some),
            r matches Err(e) ==> e == crate::error::OracleError::NotWhitelisted,
    {
        match &self.whitelist.0 {
            Option::Some(_) => {
                if self.whitelist.contains(requester) {
                    Ok(())
                } else {
                    Err(crate::error::OracleError::NotWhitelisted)
                }
            },
            Option::None => Ok(()),
        }
    }
}

} // verus!
