//! One-time CSRF tokens per form scope, as kept in a session.
use crate::deps::{new_uuid, uuid_canonical_of};
use crate::errors::SiteError;
use crate::strings::{str_chars, str_eq, trim_chars, CharPat};
use crate::publish::blank;
use vstd::prelude::*;

verus! {

/// The CSRF tokens of a session: at most one token per scope.
pub struct CsrfTokens {
    entries: Vec<(String, String)>,
}

impl CsrfTokens {
    /// Each scope has at most one entry.
    #[verifier::type_invariant]
    spec fn wf(self) -> bool {
        distinct_scopes(self.entries@)
    }

    /// The token of each scope.
    pub closed spec fn view(&self) -> Map<Seq<char>, Seq<char>> {
        pairs_map(self.entries@)
    }

    /// No tokens.
    pub fn new() -> (r: CsrfTokens)
        ensures
            r.view() == Map::<Seq<char>, Seq<char>>::empty(),
    {
        let r = CsrfTokens { entries: Vec::new() };
        proof {
            assert(r.view() =~= Map::<Seq<char>, Seq<char>>::empty());
        }
        r
    }

    /// The tokens as (scope, token) pairs, as stored in the session.
    pub fn entries(&self) -> (r: &Vec<(String, String)>)
        ensures
            pairs_map(r@) == self.view(),
    {
        &self.entries
    }

    /// The tokens of (scope, token) pairs as stored in a session; a later pair
    /// for a scope replaces an earlier one.
    pub fn from_entries(pairs: Vec<(String, String)>) -> (r: CsrfTokens)
        ensures
            r.view() == inserted_all(Map::<Seq<char>, Seq<char>>::empty(), pairs@),
    {
        let mut r = CsrfTokens::new();
        let mut rest = pairs;
        let ghost all = rest@;
        let mut k: usize = 0;
        let n = rest.len();
        proof {
            assert(all.take(0) =~= Seq::<(String, String)>::empty());
            assert(rest@ =~= all.skip(0));
        }
        while rest.len() > 0
            invariant
                k + rest@.len() == all.len(),
                all.len() == n,
                rest@ == all.skip(k as int),
                r.view() == inserted_all(Map::<Seq<char>, Seq<char>>::empty(), all.take(k as int)),
            decreases rest@.len(),
        {
            let (scope, token) = rest.remove(0);
            proof {
                assert(all.take(k + 1).drop_last() =~= all.take(k as int));
                assert(all.take(k + 1).last() == all[k as int]);
                assert(rest@ =~= all.skip(k + 1));
            }
            r.issue(scope.as_str(), token);
            k = k + 1;
        }
        proof {
            assert(all.take(k as int) =~= all);
        }
        r
    }

    /// Records `token` as the one valid token of `scope`, replacing any other.
    pub fn issue(&mut self, scope: &str, token: String)
        ensures
            final(self).view() == old(self).view().insert(scope@, token@),
    {
        proof {
            use_type_invariant(&*self);
        }
        let ghost before = self.view();
        let ghost tok = token@;
        let mut entries: Vec<(String, String)> = Vec::new();
        std::mem::swap(&mut entries, &mut self.entries);
        match find_scope(&entries, scope) {
            Some(i) => {
                let ghost old_entries = entries@;
                entries.remove(i);
                entries.insert(i, (scope.to_string(), token));
                proof {
                    assert(entries@ =~= old_entries.update(i as int, entries@[i as int]));
                    assert forall|a: int, b: int| 0 <= a < b < entries@.len() implies #[trigger] entries@[a].0@
                        != #[trigger] entries@[b].0@ by {
                        assert(old_entries[a].0@ != old_entries[b].0@);
                    }
                    assert forall|k: Seq<char>| #[trigger] pairs_map(entries@).dom().contains(k) == before.insert(scope@, tok).dom().contains(k) by {
                        if pairs_map(entries@).dom().contains(k) {
                            let j = choose|j: int| 0 <= j < entries@.len() && #[trigger] entries@[j].0@ == k;
                            if j != i {
                                assert(old_entries[j].0@ == k);
                            }
                        }
                        if before.dom().contains(k) {
                            let j = choose|j: int| 0 <= j < old_entries.len() && #[trigger] old_entries[j].0@ == k;
                            assert(entries@[j].0@ == k);
                        }
                    }
                    assert forall|k: Seq<char>| #[trigger] pairs_map(entries@).dom().contains(k) implies pairs_map(entries@)[k] == before.insert(scope@, tok)[k] by {
                        let j = choose|j: int| 0 <= j < entries@.len() && #[trigger] entries@[j].0@ == k;
                        if k != scope@ {
                            let j0 = choose|j0: int| 0 <= j0 < old_entries.len() && #[trigger] old_entries[j0].0@ == k;
                            assert(j == j0);
                        } else {
                            assert(j == i);
                        }
                    }
                    assert(pairs_map(entries@) =~= before.insert(scope@, tok));
                }
            },
            None => {
                let ghost old_entries = entries@;
                entries.push((scope.to_string(), token));
                proof {
                    assert forall|a: int, b: int| 0 <= a < b < entries@.len() implies #[trigger] entries@[a].0@
                        != #[trigger] entries@[b].0@ by {
                        if b == old_entries.len() {
                            assert(entries@[a] == old_entries[a]);
                        }
                    }
                    assert forall|k: Seq<char>| #[trigger] pairs_map(entries@).dom().contains(k) == before.insert(scope@, tok).dom().contains(k) by {
                        if k == scope@ {
                            assert(entries@[old_entries.len() as int].0@ == k);
                        }
                        if pairs_map(entries@).dom().contains(k) {
                            let j = choose|j: int| 0 <= j < entries@.len() && #[trigger] entries@[j].0@ == k;
                            if j < old_entries.len() {
                                assert(old_entries[j].0@ == k);
                            }
                        }
                        if before.dom().contains(k) {
                            let j = choose|j: int| 0 <= j < old_entries.len() && #[trigger] old_entries[j].0@ == k;
                            assert(entries@[j].0@ == k);
                        }
                    }
                    assert forall|k: Seq<char>| #[trigger] pairs_map(entries@).dom().contains(k) implies pairs_map(entries@)[k] == before.insert(scope@, tok)[k] by {
                        let j = choose|j: int| 0 <= j < entries@.len() && #[trigger] entries@[j].0@ == k;
                        if k != scope@ {
                            let j0 = choose|j0: int| 0 <= j0 < old_entries.len() && #[trigger] old_entries[j0].0@ == k;
                            assert(entries@[j0].0@ == k);
                            assert(j == j0);
                        } else {
                            assert(j == old_entries.len());
                        }
                    }
                    assert(pairs_map(entries@) =~= before.insert(scope@, tok));
                }
            },
        }
        self.entries = entries;
    }

    /// Issues a fresh token for `scope`, replacing any other, and returns it.
    pub fn issue_csrf_token(&mut self, scope: &str) -> (r: String)
        ensures
            final(self).view() == old(self).view().insert(scope@, r@),
            uuid_canonical_of(r@) == Some(r@),
    {
        let token = new_uuid();
        self.issue(scope, token.clone());
        token
    }

    /// Checks a submitted token against the one issued for `scope` and, when
    /// it matches, consumes it: a blank submission, a scope without a token
    /// and a different token are refused.
    pub fn validate(&mut self, scope: &str, submitted_token: &str) -> (r: Result<(), SiteError>)
        ensures
            csrf_outcome(old(self).view(), scope@, submitted_token@) matches Err(msg) ==> (r matches Err(
                e,
            ) && e == SiteError::BadRequest(e->BadRequest_0) && e->BadRequest_0@ == msg
                && final(self).view() == old(self).view()),
            csrf_outcome(old(self).view(), scope@, submitted_token@) is Ok ==> (r is Ok
                && final(self).view() == old(self).view().remove(scope@)),
    {
        proof {
            use_type_invariant(&*self);
        }
        if trim_chars(str_chars(submitted_token).as_slice(), &CharPat::Ws).len() == 0 {
            return Err(SiteError::BadRequest("missing csrf token".to_string()));
        }
        let i = match find_scope(&self.entries, scope) {
            Some(i) => i,
            None => return Err(SiteError::BadRequest("missing csrf state".to_string())),
        };
        if !str_eq(self.entries[i].1.as_str(), submitted_token) {
            return Err(SiteError::BadRequest("invalid csrf token".to_string()));
        }
        let ghost before = self.view();
        let mut entries: Vec<(String, String)> = Vec::new();
        std::mem::swap(&mut entries, &mut self.entries);
        let ghost old_entries = entries@;
        entries.remove(i);
        proof {
            assert forall|a: int, b: int| 0 <= a < b < entries@.len() implies #[trigger] entries@[a].0@
                != #[trigger] entries@[b].0@ by {
                let a0 = if a < i { a } else { a + 1 };
                let b0 = if b < i { b } else { b + 1 };
                assert(entries@[a] == old_entries[a0]);
                assert(entries@[b] == old_entries[b0]);
            }
            assert forall|k: Seq<char>| #[trigger] pairs_map(entries@).dom().contains(k) == before.remove(scope@).dom().contains(k) by {
                if pairs_map(entries@).dom().contains(k) {
                    let j = choose|j: int| 0 <= j < entries@.len() && #[trigger] entries@[j].0@ == k;
                    let j0 = if j < i { j } else { j + 1 };
                    assert(entries@[j] == old_entries[j0]);
                    assert(j0 != i);
                    assert(old_entries[j0].0@ != old_entries[i as int].0@ || j0 == i);
                }
                if before.remove(scope@).dom().contains(k) {
                    let j0 = choose|j0: int| 0 <= j0 < old_entries.len() && #[trigger] old_entries[j0].0@ == k;
                    assert(j0 != i);
                    let j = if j0 < i { j0 } else { j0 - 1 };
                    assert(entries@[j] == old_entries[j0]);
                }
            }
            assert forall|k: Seq<char>| #[trigger] pairs_map(entries@).dom().contains(k) implies pairs_map(entries@)[k] == before.remove(scope@)[k] by {
                let j = choose|j: int| 0 <= j < entries@.len() && #[trigger] entries@[j].0@ == k;
                let j0 = if j < i { j } else { j + 1 };
                assert(entries@[j] == old_entries[j0]);
                let c = choose|c: int| 0 <= c < old_entries.len() && #[trigger] old_entries[c].0@ == k;
                assert(c == j0);
            }
            assert(pairs_map(entries@) =~= before.remove(scope@));
        }
        self.entries = entries;
        Ok(())
    }
}

/// Whether no scope has two entries.
pub open spec fn distinct_scopes(entries: Seq<(String, String)>) -> bool {
    forall|i: int, j: int|
        0 <= i < j < entries.len() ==> #[trigger] entries[i].0@ != #[trigger] entries[j].0@
}

fn find_scope(entries: &Vec<(String, String)>, scope: &str) -> (r: Option<usize>)
    requires
        distinct_scopes(entries@),
    ensures
        match r {
            Some(i) => i < entries@.len() && entries@[i as int].0@ == scope@
                && pairs_map(entries@).dom().contains(scope@) && pairs_map(entries@)[scope@]
                == entries@[i as int].1@,
            None => !pairs_map(entries@).dom().contains(scope@),
        },
{
    let mut i: usize = 0;
    while i < entries.len()
        invariant
            distinct_scopes(entries@),
            0 <= i <= entries@.len(),
            forall|j: int| 0 <= j < i ==> (#[trigger] entries@[j]).0@ != scope@,
        decreases entries@.len() - i,
    {
        if str_eq(entries[i].0.as_str(), scope) {
            proof {
                assert(entries@[i as int].0@ == scope@);
                let k = choose|k: int| 0 <= k < entries@.len() && #[trigger] entries@[k].0@ == scope@;
                if k < i {
                } else if k > i {
                    assert(entries@[i as int].0@ != entries@[k].0@);
                }
                assert(k == i as int);
            }
            return Some(i);
        }
        i = i + 1;
    }
    None
}

/// The token of each scope among (scope, token) pairs (the first pair of a
/// scope, when there are several).
pub open spec fn pairs_map(entries: Seq<(String, String)>) -> Map<Seq<char>, Seq<char>> {
    Map::new(
        |k: Seq<char>| exists|i: int| 0 <= i < entries.len() && #[trigger] entries[i].0@ == k,
        |k: Seq<char>| entries[choose|i: int| 0 <= i < entries.len() && #[trigger] entries[i].0@ == k].1@,
    )
}

/// A map after inserting the pairs in order.
pub open spec fn inserted_all(m: Map<Seq<char>, Seq<char>>, pairs: Seq<(String, String)>) -> Map<
    Seq<char>,
    Seq<char>,
>
    decreases pairs.len(),
{
    if pairs.len() == 0 {
        m
    } else {
        inserted_all(m, pairs.drop_last()).insert(pairs.last().0@, pairs.last().1@)
    }
}

/// What validating a submitted token against the tokens of a session gives:
/// the refusal message, or success.
pub open spec fn csrf_outcome(tokens: Map<Seq<char>, Seq<char>>, scope: Seq<char>, submitted: Seq<char>) -> Result<
    (),
    Seq<char>,
> {
    if blank(submitted) {
        Err("missing csrf token"@)
    } else if !tokens.dom().contains(scope) {
        Err("missing csrf state"@)
    } else if tokens[scope] != submitted {
        Err("invalid csrf token"@)
    } else {
        Ok(())
    }
}

/// A token issued for a scope is accepted once: validating it right after it
/// was issued succeeds and consumes it, and validating it again is refused as
/// missing state.
pub proof fn issued_token_validates_once(
    tokens: Map<Seq<char>, Seq<char>>,
    scope: Seq<char>,
    token: Seq<char>,
)
    requires
        !blank(token),
    ensures
        csrf_outcome(tokens.insert(scope, token), scope, token) is Ok,
        csrf_outcome(tokens.insert(scope, token).remove(scope), scope, token) == Err::<(), Seq<char>>(
            "missing csrf state"@,
        ),
{
}

} // verus!
