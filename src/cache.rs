use crate::keyed::{scopes_view, KeyedTable};
use crate::token::{usable, Token};
use vstd::prelude::*;

verus! {

/// What the cache holds for one key: a token, and whether a fetch is in flight.
pub struct SlotState {
    pub token: Option<Token>,
    pub fetching: bool,
}

/// What a caller asking for a key must do next.
pub enum CacheAction {
    /// Return this token: it is cached and still usable.
    Serve(Token),
    /// Run the fetch: no usable token, and nobody else is fetching.
    Fetch,
    /// Another caller is fetching: wait until it stores or abandons, then ask again.
    Wait,
}

/// The decision for a caller that finds `e` under its key at `now`.
pub open spec fn begin_action(e: Option<SlotState>, now: int, skew: int) -> CacheAction {
    match e {
        Some(s) => if s.token is Some && usable(s.token->0, now, skew) {
            CacheAction::Serve(s.token->0)
        } else if s.fetching {
            CacheAction::Wait
        } else {
            CacheAction::Fetch
        },
        None => CacheAction::Fetch,
    }
}

/// The state of the key after that decision: a caller that fetches marks the
/// key as in flight and drops the stale token.
pub open spec fn begin_next(e: Option<SlotState>, now: int, skew: int) -> Option<SlotState> {
    if begin_action(e, now, skew) is Fetch {
        Some(SlotState { token: None, fetching: true })
    } else {
        e
    }
}

/// The state of the key after a fetch stored `t`.
pub open spec fn store_next(t: Token) -> Option<SlotState> {
    Some(SlotState { token: Some(t), fetching: false })
}

/// The state of the key after a fetch failed or was abandoned: nothing is cached
/// and the key is free for a new fetch.
pub open spec fn abandon_next(e: Option<SlotState>) -> Option<SlotState> {
    match e {
        Some(s) => Some(SlotState { token: s.token, fetching: false }),
        None => None,
    }
}

/// An in-flight key holds no token.
pub open spec fn slot_ok(e: Option<SlotState>) -> bool {
    match e {
        Some(s) => s.fetching ==> s.token is None,
        None => true,
    }
}

/// The decisions of a single-flight, expiry-aware token cache keyed on scope lists.
///
/// The cache performs no I/O: a caller asks [`TokenCache::begin`] what to do,
/// runs the fetch when told to, and reports its outcome with
/// [`TokenCache::store`] or [`TokenCache::abandon`]. The caller serialises
/// calls on one value (for example behind a mutex).
///
/// [`TokenCache::clear`] forgets every key, in-flight ones included: a fetch
/// that started before it may still complete and store its token.
pub struct TokenCache {
    slots: KeyedTable<SlotState>,
    skew: u32,
}

impl TokenCache {
    /// What the cache holds for `key`.
    pub closed spec fn entry(&self, key: Seq<Seq<char>>) -> Option<SlotState> {
        self.slots.get_spec(key)
    }

    /// The safety skew, in seconds, subtracted from each expiry.
    pub closed spec fn skew_spec(&self) -> int {
        self.skew as int
    }

    pub open spec fn well_formed(&self) -> bool {
        forall|k: Seq<Seq<char>>| slot_ok(#[trigger] self.entry(k))
    }

    proof fn lemma_keep_well_formed(old_c: TokenCache, new_c: TokenCache, key: Seq<Seq<char>>)
        requires
            old_c.well_formed(),
            slot_ok(new_c.entry(key)),
            forall|k: Seq<Seq<char>>| k != key ==> #[trigger] new_c.entry(k) == old_c.entry(k),
        ensures
            new_c.well_formed(),
    {
        assert forall|k: Seq<Seq<char>>| slot_ok(#[trigger] new_c.entry(k)) by {
            if k != key {
                assert(new_c.entry(k) == old_c.entry(k));
            }
        }
    }

    /// An empty cache with no skew: a token is served while `now < expires_on`.
    pub fn new() -> (r: Self)
        ensures
            r.well_formed(),
            r.skew_spec() == 0,
            forall|k: Seq<Seq<char>>| (#[trigger] r.entry(k)) is None,
    {
        TokenCache { slots: KeyedTable::new(), skew: 0 }
    }

    /// An empty cache that serves a token only while `now < expires_on - skew`.
    pub fn with_skew(skew: u32) -> (r: Self)
        ensures
            r.well_formed(),
            r.skew_spec() == skew,
            forall|k: Seq<Seq<char>>| (#[trigger] r.entry(k)) is None,
    {
        TokenCache { slots: KeyedTable::new(), skew }
    }

    pub fn skew(&self) -> (r: u32)
        ensures
            r == self.skew_spec(),
    {
        self.skew
    }

    /// Decides what a caller asking for `key` at `now` does, and records a fetch
    /// that it starts.
    pub fn begin(&mut self, key: &Vec<String>, now: i64) -> (action: CacheAction)
        requires
            old(self).well_formed(),
        ensures
            final(self).well_formed(),
            final(self).skew_spec() == old(self).skew_spec(),
            action == begin_action(old(self).entry(scopes_view(key@)), now as int, old(self).skew_spec()),
            forall|k: Seq<Seq<char>>|
                #[trigger] final(self).entry(k) == if k == scopes_view(key@) {
                    begin_next(old(self).entry(k), now as int, old(self).skew_spec())
                } else {
                    old(self).entry(k)
                },
    {
        let fetch = match self.slots.get(key) {
            Some(s) => {
                match &s.token {
                    Some(t) => {
                        if t.is_usable_at(now, self.skew) {
                            return CacheAction::Serve(t.duplicate());
                        }
                    },
                    None => {},
                }
                !s.fetching
            },
            None => true,
        };
        if fetch {
            let ghost before = *self;
            self.slots.set(key, SlotState { token: None, fetching: true });
            proof {
                Self::lemma_keep_well_formed(before, *self, scopes_view(key@));
            }
            CacheAction::Fetch
        } else {
            CacheAction::Wait
        }
    }

    /// Records a successful fetch for `key`: `token` is cached and served from now on.
    pub fn store(&mut self, key: &Vec<String>, token: Token)
        requires
            old(self).well_formed(),
        ensures
            final(self).well_formed(),
            final(self).skew_spec() == old(self).skew_spec(),
            forall|k: Seq<Seq<char>>|
                #[trigger] final(self).entry(k) == if k == scopes_view(key@) {
                    store_next(token)
                } else {
                    old(self).entry(k)
                },
    {
        let ghost before = *self;
        self.slots.set(key, SlotState { token: Some(token), fetching: false });
        proof {
            Self::lemma_keep_well_formed(before, *self, scopes_view(key@));
        }
    }

    /// Records a failed or abandoned fetch for `key`: nothing is cached and the
    /// next caller fetches anew.
    pub fn abandon(&mut self, key: &Vec<String>)
        requires
            old(self).well_formed(),
        ensures
            final(self).well_formed(),
            final(self).skew_spec() == old(self).skew_spec(),
            forall|k: Seq<Seq<char>>|
                #[trigger] final(self).entry(k) == if k == scopes_view(key@) {
                    abandon_next(old(self).entry(k))
                } else {
                    old(self).entry(k)
                },
    {
        let token = match self.slots.get(key) {
            Some(s) => match &s.token {
                Some(t) => Some(t.duplicate()),
                None => None,
            },
            None => {
                return ;
            },
        };
        let ghost before = *self;
        self.slots.set(key, SlotState { token, fetching: false });
        proof {
            Self::lemma_keep_well_formed(before, *self, scopes_view(key@));
        }
    }

    /// Forgets every key.
    pub fn clear(&mut self)
        ensures
            final(self).well_formed(),
            final(self).skew_spec() == old(self).skew_spec(),
            forall|k: Seq<Seq<char>>| (#[trigger] final(self).entry(k)) is None,
    {
        self.slots.clear();
    }
}

/// The actions that callers asking for one key at the times `nows`, one after
/// another, receive, starting from `e`, with no fetch completing meanwhile.
pub open spec fn begin_run(e: Option<SlotState>, nows: Seq<int>, skew: int) -> Seq<CacheAction>
    decreases nows.len(),
{
    if nows.len() == 0 {
        Seq::empty()
    } else {
        seq![begin_action(e, nows[0], skew)] + begin_run(
            begin_next(e, nows[0], skew),
            nows.drop_first(),
            skew,
        )
    }
}

/// How many of `actions` are fetches.
pub open spec fn fetch_count(actions: Seq<CacheAction>) -> nat
    decreases actions.len(),
{
    if actions.len() == 0 {
        0
    } else {
        (if actions[0] is Fetch {
            1nat
        } else {
            0nat
        }) + fetch_count(actions.drop_first())
    }
}

proof fn lemma_waiters_stay(nows: Seq<int>, skew: int)
    ensures
        forall|i: int|
            0 <= i < nows.len() ==> #[trigger] begin_run(
                Some(SlotState { token: None, fetching: true }),
                nows,
                skew,
            )[i] is Wait,
        begin_run(Some(SlotState { token: None, fetching: true }), nows, skew).len() == nows.len(),
        fetch_count(begin_run(Some(SlotState { token: None, fetching: true }), nows, skew)) == 0,
    decreases nows.len(),
{
    let e = Some(SlotState { token: None, fetching: true });
    if nows.len() > 0 {
        lemma_waiters_stay(nows.drop_first(), skew);
        let run = begin_run(e, nows, skew);
        assert(run.drop_first() =~= begin_run(e, nows.drop_first(), skew));
    }
}

/// Single flight: when callers for one key arrive one after another while no
/// fetch completes, and the key holds no usable token for the first of them,
/// exactly one of them fetches (the first) and every other one waits.
pub proof fn lemma_single_flight(e: Option<SlotState>, nows: Seq<int>, skew: int)
    requires
        slot_ok(e),
        nows.len() > 0,
        !(begin_action(e, nows[0], skew) is Serve),
    ensures
        fetch_count(begin_run(e, nows, skew)) <= 1,
        !(begin_action(e, nows[0], skew) is Fetch) ==> forall|i: int|
            0 <= i < nows.len() ==> #[trigger] begin_run(e, nows, skew)[i] is Wait,
        begin_action(e, nows[0], skew) is Fetch ==> fetch_count(begin_run(e, nows, skew)) == 1
            && forall|i: int| 1 <= i < nows.len() ==> #[trigger] begin_run(e, nows, skew)[i] is Wait,
{
    let run = begin_run(e, nows, skew);
    let rest = nows.drop_first();
    let e2 = begin_next(e, nows[0], skew);
    assert(e2 == Some(SlotState { token: None, fetching: true }));
    lemma_waiters_stay(rest, skew);
    assert(run.drop_first() =~= begin_run(e2, rest, skew));
    assert forall|i: int| 1 <= i < nows.len() implies #[trigger] run[i] is Wait by {
        assert(run[i] == run.drop_first()[i - 1]);
    }
}

/// Expiry: a cached token is served, unchanged and without a fetch, at every
/// `now < expires_on - skew`; at every later instant the caller fetches anew
/// (or waits, when a fetch is already in flight).
pub proof fn lemma_expiry(t: Token, fetching: bool, now: int, skew: int)
    ensures
        now < t.expires_on - skew ==> begin_action(
            Some(SlotState { token: Some(t), fetching }),
            now,
            skew,
        ) == CacheAction::Serve(t),
        now < t.expires_on - skew ==> begin_next(
            Some(SlotState { token: Some(t), fetching }),
            now,
            skew,
        ) == Some(SlotState { token: Some(t), fetching }),
        now >= t.expires_on - skew && !fetching ==> begin_action(
            Some(SlotState { token: Some(t), fetching }),
            now,
            skew,
        ) is Fetch,
        now >= t.expires_on - skew && !fetching ==> begin_next(
            Some(SlotState { token: Some(t), fetching }),
            now,
            skew,
        ) == Some(SlotState { token: None, fetching: true }),
{
}

/// A fetch that completes is what every later caller receives while it is usable.
pub proof fn lemma_store_then_serve(c: TokenCache, key: Seq<Seq<char>>, t: Token, now: int)
    requires
        c.entry(key) == store_next(t),
        now < t.expires_on - c.skew_spec(),
    ensures
        begin_action(c.entry(key), now, c.skew_spec()) == CacheAction::Serve(t),
{
}

/// After a clear, the next caller for any key fetches, whatever was cached before.
pub proof fn lemma_clear_forces_fetch(c: TokenCache, key: Seq<Seq<char>>, now: int)
    requires
        forall|k: Seq<Seq<char>>| (#[trigger] c.entry(k)) is None,
    ensures
        begin_action(c.entry(key), now, c.skew_spec()) is Fetch,
{
    assert(c.entry(key) is None);
}

} // verus!
