//! The pending-request table: token-keyed bookkeeping of in-flight
//! device operations.
//!
//! The device assigns every submitted operation a token, unique among
//! the operations currently outstanding, and that token is the sole
//! correlation key between a submission and its completion. The table
//! maps each outstanding token to a copy of the originating client
//! request and holds at most [`QUEUE_SIZE`] entries — the hard limit
//! on concurrently outstanding device operations.
//!
//! Both invariants are enforced defensively, so transport bugs surface
//! immediately: inserting a token that is already present and removing
//! a token that is absent each fail with a fatal error and leave the
//! table untouched.

use vstd::prelude::*;
use crate::block_io::BlockIoRequest;
use crate::error::FatalError;

verus! {

/// Hard limit on concurrently outstanding device operations: the
/// device transport's queue depth. A configuration constant of the
/// reference system, not a law of nature.
pub const QUEUE_SIZE: usize = 4;

/// What an entry sequence associates with `token`. The most recently
/// pushed matching entry wins; the table keeps tokens distinct, so at
/// most one entry ever matches.
pub open spec fn lookup(s: Seq<(u16, BlockIoRequest)>, token: u16) -> Option<BlockIoRequest>
    decreases s.len(),
{
    if s.len() == 0 {
        None
    } else if s.last().0 == token {
        Some(s.last().1)
    } else {
        lookup(s.drop_last(), token)
    }
}

/// No two entries share a token.
pub open spec fn distinct_tokens(s: Seq<(u16, BlockIoRequest)>) -> bool {
    forall|i: int, j: int|
        0 <= i < j < s.len() ==> (#[trigger] s[i]).0 != (#[trigger] s[j]).0
}

/// Ownership-tracking map from device token to the in-flight request.
pub struct PendingTable {
    entries: Vec<(u16, BlockIoRequest)>,
}

impl View for PendingTable {
    type V = Map<u16, BlockIoRequest>;

    closed spec fn view(&self) -> Map<u16, BlockIoRequest> {
        Map::new(
            |t: u16| lookup(self.entries@, t) is Some,
            |t: u16| lookup(self.entries@, t)->Some_0,
        )
    }
}

proof fn lemma_lookup_some_iff_exists(s: Seq<(u16, BlockIoRequest)>, token: u16)
    ensures
        (lookup(s, token) is Some) <==> exists|i: int| 0 <= i < s.len() && (#[trigger] s[i]).0
            == token,
    decreases s.len(),
{
    if s.len() > 0 {
        lemma_lookup_some_iff_exists(s.drop_last(), token);
        if s.last().0 == token {
            assert(s[s.len() - 1].0 == token);
        } else {
            if lookup(s, token) is Some {
                let i = choose|i: int|
                    0 <= i < s.drop_last().len() && (#[trigger] s.drop_last()[i]).0 == token;
                assert(s[i].0 == token);
            }
            if exists|i: int| 0 <= i < s.len() && (#[trigger] s[i]).0 == token {
                let i = choose|i: int| 0 <= i < s.len() && (#[trigger] s[i]).0 == token;
                assert(s.drop_last()[i].0 == token);
            }
        }
    }
}

proof fn lemma_lookup_at(s: Seq<(u16, BlockIoRequest)>, i: int)
    requires
        distinct_tokens(s),
        0 <= i < s.len(),
    ensures
        lookup(s, s[i].0) == Some(s[i].1),
    decreases s.len(),
{
    if i == s.len() - 1 {
    } else {
        assert(s.last().0 != s[i].0);
        assert(s.drop_last()[i] == s[i]);
        lemma_lookup_at(s.drop_last(), i);
    }
}

proof fn lemma_lookup_push(s: Seq<(u16, BlockIoRequest)>, token: u16, req: BlockIoRequest)
    ensures
        lookup(s.push((token, req)), token) == Some(req),
        forall|u: u16|
            u != token ==> #[trigger] lookup(s.push((token, req)), u) == lookup(s, u),
{
    assert(s.push((token, req)).drop_last() =~= s);
    assert(s.push((token, req)).last() == (token, req));
}

spec fn lookup_dom(s: Seq<(u16, BlockIoRequest)>) -> Set<u16> {
    Set::new(|t: u16| lookup(s, t) is Some)
}

proof fn lemma_distinct_drop_last(s: Seq<(u16, BlockIoRequest)>)
    requires
        distinct_tokens(s),
        s.len() > 0,
    ensures
        distinct_tokens(s.drop_last()),
{
    assert forall|a: int, b: int| 0 <= a < b < s.drop_last().len() implies (#[trigger] s.drop_last()[a]).0 != (#[trigger] s.drop_last()[b]).0 by {
        assert(s.drop_last()[a] == s[a]);
        assert(s.drop_last()[b] == s[b]);
    }
}

proof fn lemma_seq_dom_len(s: Seq<(u16, BlockIoRequest)>)
    requires
        distinct_tokens(s),
    ensures
        lookup_dom(s).finite(),
        lookup_dom(s).len() == s.len(),
    decreases s.len(),
{
    if s.len() == 0 {
        assert(lookup_dom(s) =~= Set::<u16>::empty());
    } else {
        lemma_distinct_drop_last(s);
        lemma_seq_dom_len(s.drop_last());
        assert(lookup_dom(s) =~= lookup_dom(s.drop_last()).insert(s.last().0));
        lemma_lookup_some_iff_exists(s.drop_last(), s.last().0);
        assert forall|j: int| 0 <= j < s.drop_last().len() implies (#[trigger] s.drop_last()[j]).0 != s.last().0 by {
            assert(s.drop_last()[j] == s[j]);
            assert(s.last() == s[s.len() - 1]);
        }
        assert(!lookup_dom(s.drop_last()).contains(s.last().0));
    }
}

proof fn lemma_lookup_remove(s: Seq<(u16, BlockIoRequest)>, i: int)
    requires
        distinct_tokens(s),
        0 <= i < s.len(),
    ensures
        lookup(s.remove(i), s[i].0) is None,
        forall|u: u16| u != s[i].0 ==> #[trigger] lookup(s.remove(i), u) == lookup(s, u),
        distinct_tokens(s.remove(i)),
    decreases s.len(),
{
    let token = s[i].0;
    s.remove_ensures(i);
    assert forall|a: int, b: int| 0 <= a < b < s.remove(i).len() implies (#[trigger] s.remove(
        i,
    )[a]).0 != (#[trigger] s.remove(i)[b]).0 by {
        let a0 = if a < i { a } else { a + 1 };
        let b0 = if b < i { b } else { b + 1 };
        assert(s.remove(i)[a] == s[a0]);
        assert(s.remove(i)[b] == s[b0]);
    }
    if i == s.len() - 1 {
        assert(s.remove(i) =~= s.drop_last());
        lemma_lookup_some_iff_exists(s.drop_last(), token);
        assert forall|j: int| 0 <= j < s.drop_last().len() implies (#[trigger] s.drop_last()[j]).0
            != token by {
            assert(s[j] == s.drop_last()[j]);
        }
        assert forall|u: u16| u != token implies #[trigger] lookup(s.remove(i), u) == lookup(
            s,
            u,
        ) by {
            assert(lookup(s, u) == lookup(s.drop_last(), u));
        }
    } else {
        assert(s.remove(i).last() == s.last());
        assert(s.remove(i).drop_last() =~= s.drop_last().remove(i));
        assert(s.drop_last()[i] == s[i]);
        lemma_distinct_drop_last(s);
        lemma_lookup_remove(s.drop_last(), i);
        assert(s.last().0 != token);
        assert(lookup(s.remove(i), token) == lookup(s.drop_last().remove(i), token));
        assert forall|u: u16| u != token implies #[trigger] lookup(s.remove(i), u) == lookup(
            s,
            u,
        ) by {
            if s.last().0 == u {
                assert(lookup(s.remove(i), u) == Some(s.last().1));
                assert(lookup(s, u) == Some(s.last().1));
            } else {
                assert(lookup(s.remove(i), u) == lookup(s.drop_last().remove(i), u));
                assert(lookup(s.drop_last().remove(i), u) == lookup(s.drop_last(), u));
                assert(lookup(s, u) == lookup(s.drop_last(), u));
            }
        }
    }
}

impl PendingTable {
    /// Every token names at most one entry, and the table never holds
    /// more than [`QUEUE_SIZE`] entries.
    pub closed spec fn wf(&self) -> bool {
        &&& distinct_tokens(self.entries@)
        &&& self.entries@.len() <= QUEUE_SIZE
    }

    proof fn lemma_view_len(&self)
        requires
            self.wf(),
        ensures
            self@.dom().finite(),
            self@.dom().len() == self.entries@.len(),
    {
        lemma_seq_dom_len(self.entries@);
        assert(self@.dom() =~= lookup_dom(self.entries@));
    }

    /// The number of entries in the table never exceeds the
    /// outstanding-operation limit, however the table was built: every
    /// operation of this type preserves `wf`, and `wf` bounds the size.
    pub proof fn lemma_bounded(&self)
        requires
            self.wf(),
        ensures
            self@.dom().finite(),
            self@.dom().len() <= QUEUE_SIZE,
    {
        self.lemma_view_len();
    }

    /// A token is removed exactly once: a successful removal takes the
    /// token out of the map, so by `remove`'s contract a second
    /// removal of the same token finds nothing, fails explicitly with
    /// `UnknownToken`, and changes nothing — the token is never
    /// observed twice.
    pub proof fn lemma_removed_exactly_once(m: Map<u16, BlockIoRequest>, token: u16)
        requires
            m.contains_key(token),
        ensures
            !m.remove(token).contains_key(token),
    {
    }

    /// Builds an empty table.
    pub fn new() -> (r: PendingTable)
        ensures
            r.wf(),
            r@ == Map::<u16, BlockIoRequest>::empty(),
    {
        let r = PendingTable { entries: Vec::new() };
        proof {
            assert(r@ =~= Map::<u16, BlockIoRequest>::empty());
        }
        r
    }

    /// How many device operations are outstanding right now.
    pub fn len(&self) -> (n: usize)
        requires
            self.wf(),
        ensures
            n == self@.dom().len(),
            n <= QUEUE_SIZE,
    {
        proof {
            self.lemma_view_len();
        }
        self.entries.len()
    }

    /// Whether `token` is outstanding.
    pub fn contains(&self, token: u16) -> (r: bool)
        requires
            self.wf(),
        ensures
            r == self@.contains_key(token),
    {
        let n = self.entries.len();
        let mut i: usize = 0;
        while i < n
            invariant
                i <= n,
                n == self.entries@.len(),
                forall|k: int| 0 <= k < i ==> (#[trigger] self.entries@[k]).0 != token,
            decreases n - i,
        {
            if self.entries[i].0 == token {
                proof {
                    lemma_lookup_some_iff_exists(self.entries@, token);
                }
                return true;
            }
            i = i + 1;
        }
        proof {
            lemma_lookup_some_iff_exists(self.entries@, token);
        }
        false
    }

    /// Records a newly submitted operation under the token the device
    /// assigned it. A token that is already outstanding is a transport
    /// bug: the insert is refused and the table is left unchanged.
    pub fn insert(&mut self, token: u16, req: BlockIoRequest) -> (r: Result<(), FatalError>)
        requires
            old(self).wf(),
            old(self)@.dom().len() < QUEUE_SIZE,
        ensures
            final(self).wf(),
            r is Ok <==> !old(self)@.contains_key(token),
            r is Ok ==> final(self)@ == old(self)@.insert(token, req),
            r is Err ==> *final(self) == *old(self) && r->Err_0 == FatalError::DuplicateToken,
    {
        if self.contains(token) {
            return Err(FatalError::DuplicateToken);
        }
        proof {
            self.lemma_view_len();
            lemma_lookup_some_iff_exists(self.entries@, token);
        }
        let ghost s = self.entries@;
        self.entries.push((token, req));
        proof {
            lemma_lookup_push(s, token, req);
            assert forall|a: int, b: int|
                0 <= a < b < self.entries@.len() implies (#[trigger] self.entries@[a]).0
                != (#[trigger] self.entries@[b]).0 by {
                if b == s.len() as int {
                    assert(self.entries@[a] == s[a]);
                    assert(s[a].0 != token) by {
                        if s[a].0 == token {
                            assert(0 <= a < s.len() && s[a].0 == token);
                        }
                    }
                } else {
                    assert(self.entries@[a] == s[a]);
                    assert(self.entries@[b] == s[b]);
                }
            }
            assert(self@ =~= old(self)@.insert(token, req));
        }
        Ok(())
    }

    /// Removes and returns the entry for a completed token. A token
    /// with no entry means a completion that was never submitted or
    /// was delivered twice: the removal is refused and the table is
    /// left unchanged, so the second observation of a token always
    /// fails explicitly.
    pub fn remove(&mut self, token: u16) -> (r: Result<BlockIoRequest, FatalError>)
        requires
            old(self).wf(),
        ensures
            final(self).wf(),
            r is Ok <==> old(self)@.contains_key(token),
            r is Ok ==> r->Ok_0 == old(self)@[token] && final(self)@ == old(self)@.remove(token),
            r is Err ==> *final(self) == *old(self) && r->Err_0 == FatalError::UnknownToken,
    {
        let n = self.entries.len();
        let mut i: usize = 0;
        while i < n
            invariant
                i <= n,
                n == self.entries@.len(),
                *self == *old(self),
                old(self).wf(),
                forall|k: int| 0 <= k < i ==> (#[trigger] self.entries@[k]).0 != token,
            decreases n - i,
        {
            if self.entries[i].0 == token {
                let ghost s = self.entries@;
                let (_, req) = self.entries.remove(i);
                proof {
                    lemma_lookup_at(s, i as int);
                    lemma_lookup_remove(s, i as int);
                    assert(self@ =~= old(self)@.remove(token));
                }
                return Ok(req);
            }
            i = i + 1;
        }
        proof {
            lemma_lookup_some_iff_exists(self.entries@, token);
        }
        Err(FatalError::UnknownToken)
    }
}

} // verus!
